//! The ordering of strings and sets of strings.

use vstd::prelude::*;
use crate::text;

verus! {

// -- Ordering ---------------------------------------------------------------------

/// Strings are ordered by their first differing character; a proper prefix comes first.
pub open spec fn lex_lt(a: Seq<char>, b: Seq<char>) -> bool
    decreases a.len(),
{
    if b.len() == 0 {
        false
    } else if a.len() == 0 {
        true
    } else if a[0] != b[0] {
        (a[0] as int) < (b[0] as int)
    } else {
        lex_lt(a.skip(1), b.skip(1))
    }
}

/// The order of strings is irreflexive.
pub proof fn lemma_lex_irreflexive(a: Seq<char>)
    ensures
        !lex_lt(a, a),
    decreases a.len(),
{
    if a.len() > 0 {
        lemma_lex_irreflexive(a.skip(1));
    }
}

/// The order of strings is transitive.
pub proof fn lemma_lex_transitive(a: Seq<char>, b: Seq<char>, c: Seq<char>)
    requires
        lex_lt(a, b),
        lex_lt(b, c),
    ensures
        lex_lt(a, c),
    decreases a.len(),
{
    if a.len() > 0 && a[0] == b[0] && b[0] == c[0] {
        lemma_lex_transitive(a.skip(1), b.skip(1), c.skip(1));
    }
}

/// Of two different strings, one comes first.
pub proof fn lemma_lex_total(a: Seq<char>, b: Seq<char>)
    ensures
        a == b || lex_lt(a, b) || lex_lt(b, a),
    decreases a.len(),
{
    if a.len() > 0 && b.len() > 0 && a[0] == b[0] {
        lemma_lex_total(a.skip(1), b.skip(1));
        if a.skip(1) == b.skip(1) {
            assert(a =~= seq![a[0]] + a.skip(1));
            assert(b =~= seq![b[0]] + b.skip(1));
        }
    } else if a.len() == 0 && b.len() == 0 {
        assert(a =~= b);
    }
}

/// Whether `a` comes before `b`.
pub fn str_lt(a: &str, b: &str) -> (r: bool)
    ensures
        r == lex_lt(a@, b@),
{
    let x = text::chars_of(a);
    let y = text::chars_of(b);
    let mut i: usize = 0;
    assert(x@.skip(0) =~= a@);
    assert(y@.skip(0) =~= b@);
    while i < x.len() && i < y.len() && x[i] == y[i]
        invariant
            x@ == a@,
            y@ == b@,
            i <= x.len(),
            i <= y.len(),
            lex_lt(x@.skip(i as int), y@.skip(i as int)) == lex_lt(a@, b@),
        decreases x.len() - i,
    {
        assert(x@.skip(i as int).skip(1) =~= x@.skip(i + 1));
        assert(y@.skip(i as int).skip(1) =~= y@.skip(i + 1));
        i = i + 1;
    }
    if i >= y.len() {
        false
    } else if i >= x.len() {
        true
    } else {
        let p: char = x[i];
        let q: char = y[i];
        p < q
    }
}

/// Each string comes before every later one.
pub open spec fn ascending(v: Seq<Seq<char>>) -> bool {
    forall|i: int, j: int| 0 <= i < j < v.len() ==> lex_lt(#[trigger] v[i], #[trigger] v[j])
}

/// The ascending list of the elements of a set.
pub open spec fn listing(s: Set<Seq<char>>) -> Seq<Seq<char>> {
    choose|v: Seq<Seq<char>>| ascending(v) && v.to_set() == s
}

/// Two ascending lists of the same elements are the same list.
pub proof fn lemma_ascending_unique(a: Seq<Seq<char>>, b: Seq<Seq<char>>)
    requires
        ascending(a),
        ascending(b),
        a.to_set() == b.to_set(),
    ensures
        a == b,
    decreases a.len(),
{
    if a.len() == 0 {
        if b.len() > 0 {
            assert(b.to_set().contains(b[0]));
            assert(a.to_set().contains(b[0]));
        }
        assert(a =~= b);
    } else {
        assert(a.to_set().contains(a[0]));
        assert(b.contains(a[0]));
        let k = choose|k: int| 0 <= k < b.len() && b[k] == a[0];
        assert(b.to_set().contains(b[0]));
        assert(a.contains(b[0]));
        let m = choose|m: int| 0 <= m < a.len() && a[m] == b[0];
        if k > 0 {
            assert(lex_lt(b[0], b[k]));
            if m > 0 {
                assert(lex_lt(a[0], a[m]));
                lemma_lex_transitive(a[0], b[0], a[0]);
            }
            lemma_lex_irreflexive(a[0]);
        }
        assert(a[0] == b[0]);
        let ta = a.skip(1);
        let tb = b.skip(1);
        assert forall|i: int, j: int| 0 <= i < j < ta.len() implies lex_lt(
            #[trigger] ta[i],
            #[trigger] ta[j],
        ) by {
            assert(ta[i] == a[i + 1] && ta[j] == a[j + 1]);
        }
        assert forall|i: int, j: int| 0 <= i < j < tb.len() implies lex_lt(
            #[trigger] tb[i],
            #[trigger] tb[j],
        ) by {
            assert(tb[i] == b[i + 1] && tb[j] == b[j + 1]);
        }
        assert forall|x: Seq<char>| ta.to_set().contains(x) <==> tb.to_set().contains(x) by {
            lemma_tail_members(a, x);
            lemma_tail_members(b, x);
            assert(a.to_set().contains(x) <==> a.contains(x));
            assert(b.to_set().contains(x) <==> b.contains(x));
        }
        assert(ta.to_set() =~= tb.to_set());
        lemma_ascending_unique(ta, tb);
        assert(a =~= seq![a[0]] + ta);
        assert(b =~= seq![b[0]] + tb);
    }
}

proof fn lemma_tail_members(a: Seq<Seq<char>>, x: Seq<char>)
    requires
        ascending(a),
        a.len() > 0,
    ensures
        a.skip(1).contains(x) <==> (a.contains(x) && x != a[0]),
{
    let t = a.skip(1);
    if t.contains(x) {
        let i = choose|i: int| 0 <= i < t.len() && t[i] == x;
        assert(a[i + 1] == x);
        assert(lex_lt(a[0], a[i + 1]));
        lemma_lex_irreflexive(x);
    }
    if a.contains(x) && x != a[0] {
        let i = choose|i: int| 0 <= i < a.len() && a[i] == x;
        assert(t[i - 1] == x);
    }
}

/// An ascending list is the listing of its elements.
pub proof fn lemma_listing(v: Seq<Seq<char>>)
    requires
        ascending(v),
    ensures
        listing(v.to_set()) == v,
{
    let s = v.to_set();
    assert(ascending(v) && v.to_set() == s);
    let w = listing(s);
    assert(ascending(w) && w.to_set() == s);
    lemma_ascending_unique(w, v);
}

/// Puts `x` into an ascending list that does not hold it, keeping the list ascending.
fn insert_ascending(v: &mut Vec<String>, x: String)
    requires
        ascending(text::views(old(v)@)),
        !text::views(old(v)@).contains(x@),
    ensures
        ascending(text::views(final(v)@)),
        text::views(final(v)@).to_set() == text::views(old(v)@).to_set().insert(x@),
        final(v)@.len() == old(v)@.len() + 1,
{
    let ghost before = text::views(v@);
    let mut i: usize = 0;
    while i < v.len() && str_lt(v[i].as_str(), x.as_str())
        invariant
            text::views(v@) == before,
            ascending(before),
            i <= v.len(),
            forall|j: int| 0 <= j < i ==> lex_lt(#[trigger] before[j], x@),
        decreases v.len() - i,
    {
        assert(before[i as int] == v@[i as int]@);
        i = i + 1;
    }
    let ghost k = i as int;
    let ghost item = x@;
    proof {
        if k < before.len() {
            assert(before[k] == v@[k]@);
            lemma_lex_total(before[k], item);
            assert(before.contains(before[k]));
            assert forall|j: int| k <= j < before.len() implies lex_lt(item, #[trigger] before[j]) by {
                if j > k {
                    lemma_lex_transitive(item, before[k], before[j]);
                }
            }
        }
    }
    v.insert(i, x);
    proof {
        let after = text::views(v@);
        assert(after =~= before.insert(k, item));
        assert forall|a: int, b: int| 0 <= a < b < after.len() implies lex_lt(
            #[trigger] after[a],
            #[trigger] after[b],
        ) by {
            let pa = if a < k {
                a
            } else {
                a - 1
            };
            let pb = if b < k {
                b
            } else {
                b - 1
            };
            if a != k && b != k {
                assert(after[a] == before[pa] && after[b] == before[pb]);
            }
        }
        assert forall|y: Seq<char>| after.to_set().contains(y) <==> before.to_set().insert(
            item,
        ).contains(y) by {
            if after.contains(y) {
                let j = choose|j: int| 0 <= j < after.len() && after[j] == y;
                if j != k {
                    let pj = if j < k {
                        j
                    } else {
                        j - 1
                    };
                    assert(before[pj] == y);
                }
            }
            if before.contains(y) {
                let j = choose|j: int| 0 <= j < before.len() && before[j] == y;
                let nj = if j < k {
                    j
                } else {
                    j + 1
                };
                assert(after[nj] == y);
            }
            assert(after[k] == item);
        }
        assert(after.to_set() =~= before.to_set().insert(item));
    }
}

/// Whether a list of strings holds a string.
pub fn list_has(v: &Vec<String>, x: &str) -> (r: bool)
    ensures
        r == text::views(v@).contains(x@),
{
    for i in 0..v.len()
        invariant
            forall|j: int| 0 <= j < i ==> text::views(v@)[j] != x@,
    {
        assert(text::views(v@)[i as int] == v@[i as int]@);
        if text::str_eq(v[i].as_str(), x) {
            return true;
        }
    }
    false
}

/// The distinct strings of a list in ascending order.
pub fn sorted_distinct(v: &Vec<String>) -> (r: Vec<String>)
    ensures
        ascending(text::views(r@)),
        text::views(r@).to_set() == text::views(v@).to_set(),
        text::views(r@) == listing(text::views(v@).to_set()),
{
    let mut out: Vec<String> = Vec::new();
    assert(text::views(out@).to_set() =~= text::views(v@.take(0)).to_set());
    for i in 0..v.len()
        invariant
            ascending(text::views(out@)),
            text::views(out@).to_set() == text::views(v@.take(i as int)).to_set(),
    {
        let ghost seen = text::views(v@.take(i as int));
        let ghost x = v@[i as int]@;
        let ghost before = text::views(out@);
        proof {
            let now = text::views(v@.take(i + 1));
            assert(now =~= seen.push(x));
            assert forall|y: Seq<char>| now.to_set().contains(y) <==> seen.to_set().insert(
                x,
            ).contains(y) by {
                if seen.contains(y) {
                    let j = choose|j: int| 0 <= j < seen.len() && seen[j] == y;
                    assert(now[j] == y);
                }
                assert(now[i as int] == x);
                if now.contains(y) && y != x {
                    let j = choose|j: int| 0 <= j < now.len() && now[j] == y;
                    assert(seen[j] == y);
                }
            }
            assert(now.to_set() =~= seen.to_set().insert(x));
            assert(before.to_set().contains(x) <==> before.contains(x));
        }
        if !list_has(&out, v[i].as_str()) {
            insert_ascending(&mut out, v[i].clone());
        } else {
            assert(seen.to_set().insert(x) =~= seen.to_set());
        }
    }
    assert(v@.take(v@.len() as int) =~= v@);
    proof {
        lemma_listing(text::views(out@));
    }
    out
}

// -- Sets -------------------------------------------------------------------------

/// A set of strings. No string is held twice.
#[derive(Debug)]
pub struct StringSet {
    items: Vec<String>,
}

impl View for StringSet {
    type V = Set<Seq<char>>;

    closed spec fn view(&self) -> Set<Seq<char>> {
        text::views(self.items@).to_set()
    }
}

impl StringSet {
    #[verifier::type_invariant]
    spec fn distinct(&self) -> bool {
        text::views(self.items@).no_duplicates()
    }

    /// The empty set.
    pub fn new() -> (r: Self)
        ensures
            r@ == Set::<Seq<char>>::empty(),
    {
        let r = StringSet { items: Vec::new() };
        assert(r@ =~= Set::<Seq<char>>::empty());
        r
    }

    /// The set of the strings of a list.
    pub fn from_list(list: &Vec<String>) -> (r: Self)
        ensures
            r@ == text::views(list@).to_set(),
    {
        let items = sorted_distinct(list);
        proof {
            lemma_ascending_distinct(text::views(items@));
        }
        StringSet { items }
    }

    /// Whether the set holds a string.
    pub fn contains(&self, x: &str) -> (r: bool)
        ensures
            r == self@.contains(x@),
    {
        list_has(&self.items, x)
    }

    /// Adds a string; false if it was already there.
    pub fn insert(&mut self, x: String) -> (r: bool)
        ensures
            final(self)@ == old(self)@.insert(x@),
            r == !old(self)@.contains(x@),
    {
        proof {
            use_type_invariant(&*self);
        }
        let ghost before = text::views(self.items@);
        if list_has(&self.items, x.as_str()) {
            assert(self@.insert(x@) =~= self@);
            false
        } else {
            let mut items = Vec::new();
            for i in 0..self.items.len()
                invariant
                    items@ == self.items@.take(i as int),
            {
                items.push(self.items[i].clone());
                assert(self.items@.take(i + 1) =~= self.items@.take(i as int).push(
                    self.items@[i as int],
                ));
            }
            assert(self.items@.take(self.items@.len() as int) =~= self.items@);
            let ghost item = x@;
            items.push(x);
            proof {
                let after = text::views(items@);
                assert(after =~= before.push(item));
                assert forall|y: Seq<char>| after.to_set().contains(y) <==> before.to_set().insert(
                    item,
                ).contains(y) by {
                    if before.contains(y) {
                        let j = choose|j: int| 0 <= j < before.len() && before[j] == y;
                        assert(after[j] == y);
                    }
                    assert(after[before.len() as int] == item);
                    if after.contains(y) && y != item {
                        let j = choose|j: int| 0 <= j < after.len() && after[j] == y;
                        assert(before[j] == y);
                    }
                }
                assert(after.to_set() =~= before.to_set().insert(item));
            }
            *self = StringSet { items };
            true
        }
    }

    /// The number of strings held.
    pub fn len(&self) -> (r: usize)
        ensures
            r == self@.len(),
    {
        proof {
            use_type_invariant(self);
            text::views(self.items@).unique_seq_to_set();
        }
        self.items.len()
    }

    /// Whether the set is empty.
    pub fn is_empty(&self) -> (r: bool)
        ensures
            r == (self@ == Set::<Seq<char>>::empty()),
    {
        proof {
            if self.items@.len() > 0 {
                assert(text::views(self.items@)[0] == self.items@[0]@);
                assert(self@.contains(self.items@[0]@));
            } else {
                assert(self@ =~= Set::<Seq<char>>::empty());
            }
        }
        self.items.len() == 0
    }

    /// The strings held, each once.
    pub fn items(&self) -> (r: &Vec<String>)
        ensures
            text::views(r@).to_set() == self@,
            text::views(r@).no_duplicates(),
    {
        proof {
            use_type_invariant(self);
        }
        &self.items
    }

    /// The strings held, in ascending order.
    pub fn sorted(&self) -> (r: Vec<String>)
        ensures
            text::views(r@) == listing(self@),
            ascending(text::views(r@)),
            text::views(r@).to_set() == self@,
    {
        sorted_distinct(&self.items)
    }

    /// A string of `self` that `other` lacks, or `None` where `other` holds them all.
    pub fn first_outside(&self, other: &StringSet) -> (r: Option<String>)
        ensures
            r is None == self@.subset_of(other@),
            r is Some ==> self@.contains(r->0@) && !other@.contains(r->0@),
    {
        for i in 0..self.items.len()
            invariant
                forall|j: int| 0 <= j < i ==> other@.contains(#[trigger] text::views(self.items@)[j]),
        {
            assert(text::views(self.items@)[i as int] == self.items@[i as int]@);
            if !other.contains(self.items[i].as_str()) {
                assert(self@.contains(self.items@[i as int]@));
                return Some(self.items[i].clone());
            }
        }
        assert forall|x: Seq<char>| self@.contains(x) implies other@.contains(x) by {
            let v = text::views(self.items@);
            let j = choose|j: int| 0 <= j < v.len() && v[j] == x;
            assert(other@.contains(v[j]));
        }
        None
    }

    /// Whether every string of `self` is in `other`.
    pub fn is_subset(&self, other: &StringSet) -> (r: bool)
        ensures
            r == self@.subset_of(other@),
    {
        self.first_outside(other).is_none()
    }
}

impl Clone for StringSet {
    fn clone(&self) -> (r: Self)
        ensures
            r@ == self@,
    {
        proof {
            use_type_invariant(self);
        }
        StringSet { items: text::strings_clone(&self.items) }
    }
}

proof fn lemma_ascending_distinct(v: Seq<Seq<char>>)
    requires
        ascending(v),
    ensures
        v.no_duplicates(),
{
    assert forall|i: int, j: int| 0 <= i < v.len() && 0 <= j < v.len() && i != j implies v[i]
        != v[j] by {
        if i < j {
            assert(lex_lt(v[i], v[j]));
        } else {
            assert(lex_lt(v[j], v[i]));
        }
        lemma_lex_irreflexive(v[i]);
    }
}

/// Texts are ordered like words in a dictionary: of two that first differ in some place, the one with the
/// smaller character there comes first, and one that is the beginning of the other comes before it.
pub proof fn texts_are_ordered_like_words(a: Seq<char>, b: Seq<char>, n: int)
    ensures
        0 <= n < a.len() && n < b.len() && (forall|i: int| 0 <= i < n ==> a[i] == b[i]) && a[n]
            < b[n] ==> lex_lt(a, b) && !lex_lt(b, a),
        a.len() < b.len() && (forall|i: int| 0 <= i < a.len() ==> a[i] == b[i]) ==> lex_lt(a, b)
            && !lex_lt(b, a),
    decreases a.len(),
{
    if a.len() > 0 && b.len() > 0 && a[0] == b[0] {
        let (p, q) = (a.skip(1), b.skip(1));
        texts_are_ordered_like_words(p, q, n - 1);
        if 0 < n < a.len() && n < b.len() && (forall|i: int| 0 <= i < n ==> a[i] == b[i]) && a[n]
            < b[n] {
            assert forall|i: int| 0 <= i < n - 1 implies p[i] == q[i] by {
                assert(a[i + 1] == b[i + 1]);
            }
            assert(p[n - 1] < q[n - 1]);
        }
        if a.len() < b.len() && (forall|i: int| 0 <= i < a.len() ==> a[i] == b[i]) {
            assert forall|i: int| 0 <= i < p.len() implies p[i] == q[i] by {
                assert(a[i + 1] == b[i + 1]);
            }
        }
    } else if a.len() > 0 && b.len() > 0 {
        if n > 0 && n < a.len() && n < b.len() && (forall|i: int| 0 <= i < n ==> a[i] == b[i]) {
            assert(a[0] == b[0]);
        }
        if a.len() < b.len() && (forall|i: int| 0 <= i < a.len() ==> a[i] == b[i]) {
            assert(a[0] == b[0]);
        }
    }
}

} // verus!
