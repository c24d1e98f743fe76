//! The carry-the-octets binding profile: the holder signs the exact text of its arguments and
//! carries it along, and the verifier compares what the text means with what the transport
//! delivered. Comparing two values is forgiving where writing one is not.

use vstd::prelude::*;
use vstd::string::*;
use crate::encoding;
use crate::error::{AgentCredsError, ErrorView};
use crate::json;
use crate::json::{Json, JsonView};
use crate::text;

verus! {

/// The profile identifier that travels on the wire alongside a binding.
pub const PROFILE: &'static str = "agentcreds-octets-v1";

/// Ceiling on the carried copy, in bytes.
pub const MAX_BOUND_ARGS_BYTES: usize = 65536;

/// An error about bound arguments.
pub open spec fn bad_binding(detail: Seq<char>) -> ErrorView {
    ErrorView::OutOfBounds { field: "bound_arguments"@, detail }
}

fn binding_error(detail: String) -> (r: AgentCredsError)
    ensures
        r@ == bad_binding(detail@),
{
    AgentCredsError::OutOfBounds { field: "bound_arguments", detail }
}

/// Serialize arguments on the holder side, for both signing and carrying: the compact text.
pub fn bind_args(value: &Json) -> (r: String)
    ensures
        r@ == json::compact(value@),
{
    json::compact_text(value)
}

/// Why carried octets are refused before they are parsed.
pub open spec fn carried_refused(s: Seq<char>) -> Option<ErrorView> {
    let len = encoding::utf8(s).len();
    if len == 0 {
        Some(bad_binding("no bound arguments were carried"@))
    } else if len > MAX_BOUND_ARGS_BYTES {
        Some(
            bad_binding(
                "bound arguments are "@ + text::decimal(len) + " bytes, over the "@
                    + text::decimal(65536) + "-byte limit"@,
            ),
        )
    } else {
        None
    }
}

/// What taking in carried octets gives, once they were parsed to `parsed`.
pub open spec fn carried_value(s: Seq<char>, parsed: Result<JsonView, Seq<char>>) -> Result<
    JsonView,
    ErrorView,
> {
    match carried_refused(s) {
        Some(e) => Err(e),
        None => match parsed {
            Ok(v) => Ok(v),
            Err(e) => Err(bad_binding("not valid JSON: "@ + e)),
        },
    }
}

/// Check carried octets on the verifier side, before they are parsed.
///
/// # Errors
/// `OutOfBounds` if the octets are missing or oversized.
pub fn check_bound_args(carried: &str) -> (r: Result<(), AgentCredsError>)
    ensures
        match r {
            Ok(_) => carried_refused(carried@) is None,
            Err(e) => carried_refused(carried@) == Some(e@),
        },
{
    let len: usize = carried.as_bytes().len();
    if len == 0 {
        return Err(binding_error("no bound arguments were carried".to_owned()));
    }
    if len > MAX_BOUND_ARGS_BYTES {
        let mut detail = "bound arguments are ".to_owned();
        detail.append(text::u64_text(len as u64).as_str());
        detail.append(" bytes, over the ");
        detail.append(text::u64_text(65536).as_str());
        detail.append("-byte limit");
        return Err(binding_error(detail));
    }
    Ok(())
}

/// Parse carried octets on the **verifier** side.
///
/// # Errors
/// `OutOfBounds` if the octets are missing, oversized or not valid JSON. This runs before
/// anything has been authenticated, so every failure has to be a refusal.
pub fn parse_bound_args(carried: &str) -> (r: Result<Json, AgentCredsError>)
    ensures
        (match r {
            Ok(v) => Ok::<JsonView, ErrorView>(v@),
            Err(e) => Err::<JsonView, ErrorView>(e@),
        }) == carried_value(carried@, json::json_read(carried@)),
{
    match check_bound_args(carried) {
        Ok(_) => {},
        Err(e) => {
            return Err(e);
        },
    }
    bound_args(carried, json::read(carried))
}

/// Take in carried octets, which a JSON parser read as `parsed`.
///
/// # Errors
/// `OutOfBounds` if the octets are missing, oversized or not valid JSON.
pub fn bound_args(carried: &str, parsed: Result<Json, String>) -> (r: Result<
    Json,
    AgentCredsError,
>)
    ensures
        (match r {
            Ok(v) => Ok::<JsonView, ErrorView>(v@),
            Err(e) => Err::<JsonView, ErrorView>(e@),
        }) == carried_value(
            carried@,
            match parsed {
                Ok(v) => Ok::<JsonView, Seq<char>>(v@),
                Err(e) => Err::<JsonView, Seq<char>>(e@),
            },
        ),
{
    match check_bound_args(carried) {
        Ok(_) => {},
        Err(e) => {
            return Err(e);
        },
    }
    match parsed {
        Ok(v) => Ok(v),
        Err(e) => {
            let mut detail = "not valid JSON: ".to_owned();
            detail.append(e.as_str());
            Err(binding_error(detail))
        },
    }
}

// -- Numbers -------------------------------------------------------------------------------------

/// A power of two.
pub open spec fn two_to(n: nat) -> int
    decreases n,
{
    if n == 0 {
        1
    } else {
        2 * two_to((n - 1) as nat)
    }
}

/// Whether the bits of a double are those of a zero of either sign.
pub open spec fn zero_bits(bits: u64) -> bool {
    bits == 0 || bits == 9223372036854775808
}

/// Whether the bits of a double are those of no number.
pub open spec fn nan_bits(bits: u64) -> bool {
    (bits / 4503599627370496) % 2048 == 2047 && bits % 4503599627370496 != 0
}

/// Whether the whole number `m` rounds to `mantissa * 2^shift`, where `mantissa` has 53 bits:
/// it is no further from it than half the gap to the next double, the even one of two being
/// taken in the middle. Below a power of two the gap is half as wide.
pub open spec fn rounds_to(m: int, mantissa: int, shift: int) -> bool {
    if shift <= 0 {
        -shift <= 52 && m * two_to((-shift) as nat) == mantissa
    } else {
        let v = mantissa * two_to(shift as nat);
        let gap = two_to(shift as nat);
        if m >= v {
            2 * (m - v) < gap || (2 * (m - v) == gap && mantissa % 2 == 0)
        } else if mantissa == 4503599627370496 {
            4 * (v - m) <= gap
        } else {
            2 * (v - m) < gap || (2 * (v - m) == gap && mantissa % 2 == 0)
        }
    }
}

/// Whether the double of some bits is the one that a whole number rounds to.
pub open spec fn double_is(bits: u64, n: int) -> bool {
    let exponent = (bits / 4503599627370496) % 2048;
    let negative = bits >= 9223372036854775808;
    if n == 0 {
        zero_bits(bits)
    } else {
        &&& negative == (n < 0)
        &&& 0 < exponent <= 1087
        &&& rounds_to(
            if n < 0 {
                -n
            } else {
                n
            },
            4503599627370496 + (bits % 4503599627370496),
            exponent - 1075,
        )
    }
}

/// Whether two doubles are the same number.
pub open spec fn same_double(a: u64, b: u64) -> bool {
    (a == b && !nan_bits(a)) || (zero_bits(a) && zero_bits(b))
}

fn power(n: u32) -> (r: u128)
    requires
        n <= 52,
    ensures
        r == two_to(n as nat),
        1 <= r <= 4503599627370496,
{
    let mut r: u128 = 1;
    proof {
        assert(two_to(52) == 4503599627370496) by {
            reveal_with_fuel(two_to, 53);
        }
        lemma_powers_ascend(0, 52);
    }
    for i in 0..n
        invariant
            n <= 52,
            r == two_to(i as nat),
            1 <= r,
            r <= two_to(i as nat),
            two_to(i as nat) <= two_to(52),
            two_to(52) == 4503599627370496,
    {
        proof {
            lemma_powers_ascend((i + 1) as nat, 52);
        }
        r = r * 2;
    }
    r
}

proof fn lemma_powers_ascend(a: nat, b: nat)
    requires
        a <= b,
    ensures
        1 <= two_to(a) <= two_to(b),
    decreases b,
{
    if a < b {
        lemma_powers_ascend(a, (b - 1) as nat);
    } else if a > 0 {
        lemma_powers_ascend((a - 1) as nat, (a - 1) as nat);
    }
}

/// Whether a whole number rounds to `mantissa * 2^shift`, `below` telling which way `shift`
/// goes.
fn is_rounded(m: u64, mantissa: u64, shift: u32, below: bool) -> (r: bool)
    requires
        4503599627370496 <= mantissa < 9007199254740992,
        below ==> shift <= 1075,
        !below ==> 0 < shift <= 12,
    ensures
        r == rounds_to(
            m as int,
            mantissa as int,
            if below {
                -(shift as int)
            } else {
                shift as int
            },
        ),
{
    if below {
        if shift > 52 {
            return false;
        }
        let p: u128 = power(shift);
        assert(m * p <= 18446744073709551615 * 4503599627370496) by (nonlinear_arith)
            requires
                m <= 18446744073709551615,
                p <= 4503599627370496,
        ;
        return m as u128 * p == mantissa as u128;
    }
    let gap: u128 = power(shift);
    assert(mantissa * gap <= 9007199254740992 * 4503599627370496) by (nonlinear_arith)
        requires
            mantissa <= 9007199254740992,
            gap <= 4503599627370496,
    ;
    let v: u128 = mantissa as u128 * gap;
    let w: u128 = m as u128;
    if w >= v {
        let d: u128 = 2 * (w - v);
        d < gap || (d == gap && mantissa % 2 == 0)
    } else if mantissa == 4503599627370496 {
        4 * (v - w) <= gap
    } else {
        let d: u128 = 2 * (v - w);
        d < gap || (d == gap && mantissa % 2 == 0)
    }
}

/// Whether the double of some bits is the one that the whole number `m`, or its negation,
/// rounds to.
fn is_double(bits: u64, negated: bool, m: u64) -> (r: bool)
    requires
        negated ==> m > 0,
    ensures
        r == double_is(
            bits,
            if negated {
                -(m as int)
            } else {
                m as int
            },
        ),
{
    if m == 0 {
        return bits == 0 || bits == 9223372036854775808;
    }
    let exponent: u64 = (bits / 4503599627370496) % 2048;
    let negative = bits >= 9223372036854775808;
    if negative != negated || exponent == 0 || exponent > 1087 {
        return false;
    }
    let mantissa: u64 = 4503599627370496 + bits % 4503599627370496;
    if exponent <= 1075 {
        is_rounded(m, mantissa, (1075 - exponent) as u32, true)
    } else {
        is_rounded(m, mantissa, (exponent - 1075) as u32, false)
    }
}

fn is_nan(bits: u64) -> (r: bool)
    ensures
        r == nan_bits(bits),
{
    (bits / 4503599627370496) % 2048 == 2047 && bits % 4503599627370496 != 0
}

// -- Comparison ----------------------------------------------------------------------------------

/// The whole number that a value is, where it is one.
pub open spec fn whole_of(v: JsonView) -> Option<int> {
    match v {
        JsonView::Whole(n) => Some(n as int),
        JsonView::Negative(n) => Some(n as int),
        _ => None,
    }
}

/// Whether two JSON values mean the same: objects as unordered sets of members, arrays in
/// their order, numbers by value, two whole numbers exactly.
pub open spec fn same_value(a: JsonView, b: JsonView) -> bool
    decreases a,
{
    match a {
        JsonView::Null => b is Null,
        JsonView::Bool(x) => b == JsonView::Bool(x),
        JsonView::Text(x) => b == JsonView::Text(x),
        JsonView::List(x) => match b {
            JsonView::List(y) => same_items(x, y),
            _ => false,
        },
        JsonView::Object(x) => match b {
            JsonView::Object(y) => x.len() == y.len() && members_within(x, y),
            _ => false,
        },
        JsonView::Real { bits, text } => match b {
            JsonView::Real { bits: other, text: _ } => same_double(bits, other),
            _ => whole_of(b) is Some && double_is(bits, whole_of(b)->0),
        },
        _ => match b {
            JsonView::Real { bits, text } => double_is(bits, whole_of(a)->0),
            _ => whole_of(b) == whole_of(a),
        },
    }
}

/// Whether items mean the same, one by one.
pub open spec fn same_items(x: Seq<JsonView>, y: Seq<JsonView>) -> bool
    decreases x,
{
    if x.len() != y.len() {
        false
    } else if x.len() == 0 {
        true
    } else {
        same_items(x.subrange(0, x.len() - 1), y.subrange(0, y.len() - 1)) && same_value(
            x[x.len() - 1],
            y[y.len() - 1],
        )
    }
}

/// Whether each member of `x` means the same as the member of its name in `y`.
pub open spec fn members_within(
    x: Seq<(Seq<char>, JsonView)>,
    y: Seq<(Seq<char>, JsonView)>,
) -> bool
    decreases x,
{
    if x.len() == 0 {
        true
    } else {
        members_within(x.subrange(0, x.len() - 1), y) && match json::value_in(
            y,
            x[x.len() - 1].0,
        ) {
            Some(w) => same_value(x[x.len() - 1].1, w),
            None => false,
        }
    }
}

fn numbers_eq(a: &Json, b: &Json) -> (r: bool)
    requires
        a is Whole || a is Negative || a is Real,
    ensures
        r == same_value(a@, b@),
{
    match a {
        Json::Whole(n) => match b {
            Json::Whole(m) => *n == *m,
            Json::Negative(m) => *m >= 0 && *n == *m as u64,
            Json::Real { bits, text: _ } => is_double(*bits, false, *n),
            _ => false,
        },
        Json::Negative(n) => match b {
            Json::Whole(m) => *n >= 0 && *m == *n as u64,
            Json::Negative(m) => *n == *m,
            Json::Real { bits, text: _ } => real_eq(*bits, *n),
            _ => false,
        },
        Json::Real { bits, text: _ } => match b {
            Json::Whole(m) => is_double(*bits, false, *m),
            Json::Negative(m) => real_eq(*bits, *m),
            Json::Real { bits: other, text: _ } => (*bits == *other && !is_nan(*bits)) || ((*bits
                == 0 || *bits == 9223372036854775808) && (*other == 0 || *other
                == 9223372036854775808)),
            _ => false,
        },
        _ => false,
    }
}

fn real_eq(bits: u64, n: i64) -> (r: bool)
    ensures
        r == double_is(bits, n as int),
{
    if n >= 0 {
        is_double(bits, false, n as u64)
    } else {
        let m: u64 = if n == i64::MIN {
            9223372036854775808
        } else {
            (0 - n) as u64
        };
        is_double(bits, true, m)
    }
}

/// Structural equality over two parsed JSON values.
///
/// Objects compare as unordered key sets; arrays keep their order. Numbers compare
/// numerically, and two integers compare exactly.
#[must_use]
pub fn semantic_eq(a: &Json, b: &Json) -> (r: bool)
    ensures
        r == same_value(a@, b@),
    decreases a,
{
    match a {
        Json::Null => match b {
            Json::Null => true,
            _ => false,
        },
        Json::Bool(x) => match b {
            Json::Bool(y) => *x == *y,
            _ => false,
        },
        Json::Text(x) => match b {
            Json::Text(y) => text::str_eq(x.as_str(), y.as_str()),
            _ => false,
        },
        Json::List(x) => match b {
            Json::List(y) => {
                let ghost p = a@->List_0;
                let ghost q = b@->List_0;
                if x.len() != y.len() {
                    assert(!same_items(p, q));
                    return false;
                }
                assert(p.subrange(0, 0) =~= Seq::<JsonView>::empty());
                assert(q.subrange(0, 0) =~= Seq::<JsonView>::empty());
                for i in 0..x.len()
                    invariant
                        *a == Json::List(*x),
                        *b == Json::List(*y),
                        p == a@->List_0,
                        q == b@->List_0,
                        p.len() == x@.len(),
                        q.len() == y@.len(),
                        x@.len() == y@.len(),
                        same_items(p.subrange(0, i as int), q.subrange(0, i as int)),
                {
                    assert(decreases_to!(*a => a->List_0@[i as int]));
                    assert(p[i as int] == x@[i as int]@);
                    assert(q[i as int] == y@[i as int]@);
                    let ghost np = p.subrange(0, i + 1);
                    let ghost nq = q.subrange(0, i + 1);
                    assert(np.subrange(0, i as int) =~= p.subrange(0, i as int));
                    assert(nq.subrange(0, i as int) =~= q.subrange(0, i as int));
                    if !semantic_eq(&x[i], &y[i]) {
                        proof {
                            lemma_items_differ(p, q, i + 1);
                        }
                        return false;
                    }
                }
                assert(p.subrange(0, p.len() as int) =~= p);
                assert(q.subrange(0, q.len() as int) =~= q);
                true
            },
            _ => false,
        },
        Json::Object(x) => match b {
            Json::Object(y) => {
                let ghost p = a@->Object_0;
                let ghost q = b@->Object_0;
                if x.len() != y.len() {
                    return false;
                }
                assert(p.subrange(0, 0) =~= Seq::<(Seq<char>, JsonView)>::empty());
                for i in 0..x.len()
                    invariant
                        *a == Json::Object(*x),
                        *b == Json::Object(*y),
                        p == a@->Object_0,
                        q == b@->Object_0,
                        p.len() == x@.len(),
                        q.len() == y@.len(),
                        x@.len() == y@.len(),
                        members_within(p.subrange(0, i as int), q),
                {
                    assert(decreases_to!(*a => a->Object_0@[i as int].1));
                    assert(p[i as int] == (x@[i as int].0@, x@[i as int].1@));
                    let ghost np = p.subrange(0, i + 1);
                    assert(np.subrange(0, i as int) =~= p.subrange(0, i as int));
                    assert(np[i as int] == p[i as int]);
                    let same = match find_member(y, x[i].0.as_str(), Ghost(q)) {
                        Some(k) => semantic_eq(&x[i].1, &y[k].1),
                        None => false,
                    };
                    if !same {
                        proof {
                            lemma_members_differ(p, q, i + 1);
                        }
                        return false;
                    }
                }
                assert(p.subrange(0, p.len() as int) =~= p);
                true
            },
            _ => false,
        },
        _ => numbers_eq(a, b),
    }
}

/// The place of the first member of a name.
fn find_member(y: &Vec<(String, Json)>, name: &str, Ghost(q): Ghost<Seq<(Seq<char>, JsonView)>>) -> (r:
    Option<usize>)
    requires
        q.len() == y@.len(),
        forall|i: int| 0 <= i < q.len() ==> #[trigger] q[i] == (y@[i].0@, y@[i].1@),
    ensures
        match r {
            Some(k) => k < y@.len() && json::value_in(q, name@) == Some(y@[k as int].1@),
            None => json::value_in(q, name@) is None,
        },
{
    assert(q.skip(0) =~= q);
    for i in 0..y.len()
        invariant
            q.len() == y@.len(),
            forall|i: int| 0 <= i < q.len() ==> #[trigger] q[i] == (y@[i].0@, y@[i].1@),
            json::value_in(q, name@) == json::value_in(q.skip(i as int), name@),
    {
        assert(q.skip(i as int)[0] == q[i as int]);
        assert(q.skip(i as int).skip(1) =~= q.skip(i + 1));
        if text::str_eq(y[i].0.as_str(), name) {
            return Some(i);
        }
    }
    None
}

proof fn lemma_items_differ(x: Seq<JsonView>, y: Seq<JsonView>, n: int)
    requires
        x.len() == y.len(),
        0 <= n <= x.len(),
        !same_items(x.subrange(0, n), y.subrange(0, n)),
    ensures
        !same_items(x, y),
    decreases x.len(),
{
    if n == x.len() {
        assert(x.subrange(0, n) =~= x);
        assert(y.subrange(0, n) =~= y);
    } else {
        let p = x.subrange(0, x.len() - 1);
        let q = y.subrange(0, y.len() - 1);
        assert(p.subrange(0, n) =~= x.subrange(0, n));
        assert(q.subrange(0, n) =~= y.subrange(0, n));
        lemma_items_differ(p, q, n);
    }
}

proof fn lemma_members_differ(
    x: Seq<(Seq<char>, JsonView)>,
    y: Seq<(Seq<char>, JsonView)>,
    n: int,
)
    requires
        0 <= n <= x.len(),
        !members_within(x.subrange(0, n), y),
    ensures
        !members_within(x, y),
    decreases x.len(),
{
    if n == x.len() {
        assert(x.subrange(0, n) =~= x);
    } else {
        let p = x.subrange(0, x.len() - 1);
        assert(p.subrange(0, n) =~= x.subrange(0, n));
        lemma_members_differ(p, y, n);
    }
}

// -- Laws ----------------------------------------------------------------------------------------

/// Whether a value is one that a JSON parser gives: no name occurs twice in an object, and
/// every double is a number.
pub open spec fn well_formed(v: JsonView) -> bool
    decreases v,
{
    match v {
        JsonView::Real { bits, text } => !nan_bits(bits),
        JsonView::List(items) => items_well_formed(items),
        JsonView::Object(members) => members_well_formed(members) && forall|i: int, j: int|
            0 <= i < j < members.len() ==> (#[trigger] members[i]).0 != (#[trigger] members[j]).0,
        _ => true,
    }
}

/// Whether items are well-formed.
pub open spec fn items_well_formed(v: Seq<JsonView>) -> bool
    decreases v,
{
    v.len() > 0 ==> items_well_formed(v.subrange(0, v.len() - 1)) && well_formed(v[v.len() - 1])
}

/// Whether the values of members are well-formed.
pub open spec fn members_well_formed(v: Seq<(Seq<char>, JsonView)>) -> bool
    decreases v,
{
    v.len() > 0 ==> members_well_formed(v.subrange(0, v.len() - 1)) && well_formed(
        v[v.len() - 1].1,
    )
}

/// A value means the same as itself.
pub proof fn a_value_equals_itself(v: JsonView)
    requires
        well_formed(v),
    ensures
        same_value(v, v),
    decreases v, 1int,
{
    match v {
        JsonView::List(items) => {
            lemma_items_reflexive(items);
        },
        JsonView::Object(members) => {
            lemma_members_reflexive(members, members);
        },
        _ => {},
    }
}

proof fn lemma_items_reflexive(v: Seq<JsonView>)
    requires
        items_well_formed(v),
    ensures
        same_items(v, v),
    decreases v, 0int,
{
    if v.len() > 0 {
        lemma_items_reflexive(v.subrange(0, v.len() - 1));
        a_value_equals_itself(v[v.len() - 1]);
    }
}

proof fn lemma_members_reflexive(
    x: Seq<(Seq<char>, JsonView)>,
    y: Seq<(Seq<char>, JsonView)>,
)
    requires
        members_well_formed(x),
        forall|i: int, j: int|
            0 <= i < j < y.len() ==> (#[trigger] y[i]).0 != (#[trigger] y[j]).0,
        forall|i: int| 0 <= i < x.len() ==> y.contains(#[trigger] x[i]),
    ensures
        members_within(x, y),
    decreases x, 0int,
{
    if x.len() > 0 {
        let rest = x.subrange(0, x.len() - 1);
        assert forall|i: int| 0 <= i < rest.len() implies y.contains(#[trigger] rest[i]) by {
            assert(rest[i] == x[i]);
        }
        lemma_members_reflexive(rest, y);
        let m = x[x.len() - 1];
        a_value_equals_itself(m.1);
        assert(y.contains(m));
        let k = choose|k: int| 0 <= k < y.len() && y[k] == m;
        lemma_value_of_distinct(y, k);
    }
}

proof fn lemma_value_of_distinct(v: Seq<(Seq<char>, JsonView)>, k: int)
    requires
        0 <= k < v.len(),
        forall|i: int, j: int|
            0 <= i < j < v.len() ==> (#[trigger] v[i]).0 != (#[trigger] v[j]).0,
    ensures
        json::value_in(v, v[k].0) == Some(v[k].1),
    decreases v.len(),
{
    if k > 0 {
        assert(v[0].0 != v[k].0);
        let t = v.skip(1);
        assert forall|i: int, j: int| 0 <= i < j < t.len() implies (#[trigger] t[i]).0 != (
        #[trigger] t[j]).0 by {
            assert(t[i] == v[i + 1] && t[j] == v[j + 1]);
        }
        lemma_value_of_distinct(t, k - 1);
        assert(t[k - 1] == v[k]);
    }
}

/// The order of an object's members makes no difference: two objects of the same size whose
/// members are the same mean the same.
pub proof fn member_order_makes_no_difference(
    x: Seq<(Seq<char>, JsonView)>,
    y: Seq<(Seq<char>, JsonView)>,
)
    requires
        well_formed(JsonView::Object(x)),
        well_formed(JsonView::Object(y)),
        x.len() == y.len(),
        forall|i: int| 0 <= i < x.len() ==> y.contains(#[trigger] x[i]),
    ensures
        same_value(JsonView::Object(x), JsonView::Object(y)),
{
    lemma_members_reflexive(x, y);
}

/// Whole numbers are compared exactly: two that differ, however large, are not the same.
pub proof fn whole_numbers_compare_exactly(a: u64, b: u64)
    ensures
        same_value(JsonView::Whole(a), JsonView::Whole(b)) <==> a == b,
{
}

/// Values of two kinds never mean the same, and nulls, booleans and texts mean the same exactly where
/// they are equal. The numbers are one kind, however they are written.
pub proof fn plain_values_mean_the_same_where_they_are_equal(a: JsonView, b: JsonView)
    ensures
        a is Null || b is Null ==> (same_value(a, b) <==> a is Null && b is Null),
        a is Bool || b is Bool ==> (same_value(a, b) <==> a is Bool && b is Bool && a->Bool_0
            == b->Bool_0),
        a is Text || b is Text ==> (same_value(a, b) <==> a is Text && b is Text && a->Text_0
            == b->Text_0),
        same_value(a, b) ==> (a is List <==> b is List),
        same_value(a, b) ==> (a is Object <==> b is Object),
{
}

proof fn lemma_items_in_place(x: Seq<JsonView>, y: Seq<JsonView>)
    ensures
        same_items(x, y) <==> x.len() == y.len() && forall|i: int|
            0 <= i < x.len() ==> same_value(#[trigger] x[i], y[i]),
    decreases x.len(),
{
    if x.len() == y.len() && x.len() > 0 {
        let (p, q) = (x.subrange(0, x.len() - 1), y.subrange(0, y.len() - 1));
        lemma_items_in_place(p, q);
        let n = p.len() as int;
        if same_items(x, y) {
            assert forall|i: int| 0 <= i < x.len() implies same_value(#[trigger] x[i], y[i]) by {
                if i < n {
                    assert(p[i] == x[i] && q[i] == y[i]);
                    assert(same_value(p[i], q[i]));
                }
            }
        }
        if forall|i: int| 0 <= i < x.len() ==> same_value(#[trigger] x[i], y[i]) {
            assert forall|i: int| 0 <= i < p.len() implies same_value(#[trigger] p[i], q[i]) by {
                assert(p[i] == x[i] && q[i] == y[i]);
                assert(same_value(x[i], y[i]));
            }
            assert(same_value(x[n], y[n]));
        }
    }
}

/// Lists mean the same exactly where they are equally long and their items mean the same, each in
/// its place.
pub proof fn lists_are_compared_item_by_item(x: Seq<JsonView>, y: Seq<JsonView>)
    ensures
        same_value(JsonView::List(x), JsonView::List(y)) <==> x.len() == y.len() && forall|i: int|
            0 <= i < x.len() ==> same_value(#[trigger] x[i], y[i]),
{
    lemma_items_in_place(x, y);
}

proof fn lemma_members_by_name(x: Seq<(Seq<char>, JsonView)>, y: Seq<(Seq<char>, JsonView)>)
    ensures
        members_within(x, y) <==> forall|i: int|
            0 <= i < x.len() ==> json::value_in(y, (#[trigger] x[i]).0) is Some && same_value(
                x[i].1,
                json::value_in(y, x[i].0)->0,
            ),
    decreases x.len(),
{
    if x.len() > 0 {
        let p = x.subrange(0, x.len() - 1);
        let n = p.len() as int;
        lemma_members_by_name(p, y);
        if members_within(x, y) {
            assert forall|i: int| 0 <= i < x.len() implies json::value_in(
                y,
                (#[trigger] x[i]).0,
            ) is Some && same_value(x[i].1, json::value_in(y, x[i].0)->0) by {
                if i < n {
                    assert(p[i] == x[i]);
                }
            }
        }
        if forall|i: int|
            0 <= i < x.len() ==> json::value_in(y, (#[trigger] x[i]).0) is Some && same_value(
                x[i].1,
                json::value_in(y, x[i].0)->0,
            ) {
            assert forall|i: int| 0 <= i < p.len() implies json::value_in(
                y,
                (#[trigger] p[i]).0,
            ) is Some && same_value(p[i].1, json::value_in(y, p[i].0)->0) by {
                assert(p[i] == x[i]);
            }
            assert(json::value_in(y, x[n].0) is Some);
        }
    }
}

spec fn names(v: Seq<(Seq<char>, JsonView)>) -> Seq<Seq<char>> {
    v.map_values(|m: (Seq<char>, JsonView)| m.0)
}

proof fn lemma_value_in(v: Seq<(Seq<char>, JsonView)>, name: Seq<char>)
    ensures
        json::value_in(v, name) is Some <==> names(v).contains(name),
        json::value_in(v, name) is Some ==> exists|i: int|
            0 <= i < v.len() && #[trigger] v[i] == (name, json::value_in(v, name)->0),
    decreases v.len(),
{
    if v.len() > 0 {
        if v[0].0 == name {
            assert(names(v)[0] == name);
            assert(v[0] == (name, json::value_in(v, name)->0));
        } else {
            let t = v.skip(1);
            lemma_value_in(t, name);
            if json::value_in(t, name) is Some {
                let i = choose|i: int|
                    0 <= i < t.len() && #[trigger] t[i] == (name, json::value_in(t, name)->0);
                assert(v[i + 1] == t[i]);
                assert(names(v)[i + 1] == name);
            }
            if names(v).contains(name) {
                let i = choose|i: int| 0 <= i < names(v).len() && names(v)[i] == name;
                assert(i > 0);
                assert(names(t)[i - 1] == name);
            }
        }
    }
}

proof fn lemma_same_names(x: Seq<(Seq<char>, JsonView)>, y: Seq<(Seq<char>, JsonView)>)
    requires
        well_formed(JsonView::Object(x)),
        well_formed(JsonView::Object(y)),
        x.len() == y.len(),
        members_within(x, y),
    ensures
        names(x).to_set() == names(y).to_set(),
{
    lemma_members_by_name(x, y);
    let (p, q) = (names(x), names(y));
    assert(p.no_duplicates()) by {
        assert forall|i: int, j: int| 0 <= i < p.len() && 0 <= j < p.len() && i != j implies p[i]
            != p[j] by {
            assert(p[i] == x[i].0 && p[j] == x[j].0);
        }
    }
    assert(q.no_duplicates()) by {
        assert forall|i: int, j: int| 0 <= i < q.len() && 0 <= j < q.len() && i != j implies q[i]
            != q[j] by {
            assert(q[i] == y[i].0 && q[j] == y[j].0);
        }
    }
    p.unique_seq_to_set();
    q.unique_seq_to_set();
    assert(p.to_set().subset_of(q.to_set())) by {
        assert forall|n: Seq<char>| #[trigger] p.to_set().contains(n) implies q.to_set().contains(
            n,
        ) by {
            let i = choose|i: int| 0 <= i < p.len() && p[i] == n;
            assert(x[i].0 == n);
            lemma_value_in(y, n);
        }
    }
    vstd::set_lib::lemma_subset_equality(p.to_set(), q.to_set());
}

/// Objects that mean the same have the same names, each with values that mean the same, whatever
/// their order; and objects of which this holds mean the same.
pub proof fn objects_are_compared_by_name(
    x: Seq<(Seq<char>, JsonView)>,
    y: Seq<(Seq<char>, JsonView)>,
)
    requires
        well_formed(JsonView::Object(x)),
        well_formed(JsonView::Object(y)),
    ensures
        same_value(JsonView::Object(x), JsonView::Object(y)) <==> x.len() == y.len() && forall|
            name: Seq<char>,
        |
            (#[trigger] json::value_in(x, name) is Some <==> json::value_in(y, name) is Some) && (
            json::value_in(x, name) is Some ==> same_value(
                json::value_in(x, name)->0,
                json::value_in(y, name)->0,
            )),
{
    lemma_members_by_name(x, y);
    if x.len() == y.len() && members_within(x, y) {
        lemma_same_names(x, y);
        assert forall|name: Seq<char>|
            (#[trigger] json::value_in(x, name) is Some <==> json::value_in(y, name) is Some) && (
            json::value_in(x, name) is Some ==> same_value(
                json::value_in(x, name)->0,
                json::value_in(y, name)->0,
            )) by {
            lemma_value_in(x, name);
            lemma_value_in(y, name);
            assert(names(x).contains(name) == names(x).to_set().contains(name));
            assert(names(y).contains(name) == names(y).to_set().contains(name));
            if json::value_in(x, name) is Some {
                let i = choose|i: int|
                    0 <= i < x.len() && #[trigger] x[i] == (name, json::value_in(x, name)->0);
                assert(same_value(x[i].1, json::value_in(y, x[i].0)->0));
            }
        }
    }
    if x.len() == y.len() && (forall|name: Seq<char>|
        (#[trigger] json::value_in(x, name) is Some <==> json::value_in(y, name) is Some) && (
        json::value_in(x, name) is Some ==> same_value(
            json::value_in(x, name)->0,
            json::value_in(y, name)->0,
        ))) {
        assert forall|i: int| 0 <= i < x.len() implies json::value_in(
            y,
            (#[trigger] x[i]).0,
        ) is Some && same_value(x[i].1, json::value_in(y, x[i].0)->0) by {
            lemma_value_of_distinct(x, i);
        }
    }
}

/// Whole numbers compare by what they are, whether they were read as positive or negative ones.
pub proof fn whole_numbers_compare_by_value(a: JsonView, b: JsonView)
    requires
        whole_of(a) is Some,
        whole_of(b) is Some,
    ensures
        same_value(a, b) <==> whole_of(a) == whole_of(b),
        a is Whole ==> whole_of(a) == Some(a->Whole_0 as int),
        a is Negative ==> whole_of(a) == Some(a->Negative_0 as int),
{
}

/// Doubles mean the same where they are the same number: equal bits that are no NaN, or two zeros.
pub proof fn doubles_compare_as_numbers(a: JsonView, b: JsonView)
    requires
        a is Real,
        b is Real,
    ensures
        same_value(a, b) <==> (a->bits == b->bits && !((a->bits / 4503599627370496) % 2048 == 2047
            && a->bits % 4503599627370496 != 0)) || ((a->bits == 0 || a->bits
            == 9223372036854775808) && (b->bits == 0 || b->bits == 9223372036854775808)),
{
}

/// A whole number and a double compare either way round, a zero means the same as both zero doubles
/// and as no other, and a double below 2^53 in size means the same as the whole number that it is.
pub proof fn a_double_means_the_whole_number_it_is(a: JsonView, b: JsonView)
    requires
        whole_of(a) is Some,
        b is Real,
    ensures
        same_value(a, b) <==> same_value(b, a),
        whole_of(a) == Some(0int) ==> (same_value(a, b) <==> b->bits == 0 || b->bits
            == 9223372036854775808),
        ({
            let n = whole_of(a)->0;
            let exponent = (b->bits / 4503599627370496) % 2048;
            let mantissa = 4503599627370496 + (b->bits % 4503599627370496);
            let negative = b->bits >= 9223372036854775808;
            n != 0 && 1023 <= exponent <= 1075 ==> (same_value(a, b) <==> negative == (n < 0) && (
            if n < 0 {
                -n
            } else {
                n
            }) * two_to((1075 - exponent) as nat) == mantissa)
        }),
{
}

/// Two values mean the same in whichever order they are compared.
pub proof fn meaning_the_same_is_symmetric(a: JsonView, b: JsonView)
    requires
        well_formed(a),
        well_formed(b),
        same_value(a, b),
    ensures
        same_value(b, a),
    decreases a,
{
    match (a, b) {
        (JsonView::List(x), JsonView::List(y)) => {
            lemma_items_in_place(x, y);
            lemma_items_in_place(y, x);
            lemma_items_well_formed(x);
            lemma_items_well_formed(y);
            assert forall|i: int| 0 <= i < y.len() implies same_value(#[trigger] y[i], x[i]) by {
                assert(same_value(x[i], y[i]));
                assert(well_formed(x[i]) && well_formed(y[i]));
                meaning_the_same_is_symmetric(x[i], y[i]);
            }
        },
        (JsonView::Object(x), JsonView::Object(y)) => {
            objects_are_compared_by_name(x, y);
            objects_are_compared_by_name(y, x);
            lemma_members_well_formed(x);
            lemma_members_well_formed(y);
            assert forall|name: Seq<char>|
                (#[trigger] json::value_in(y, name) is Some <==> json::value_in(x, name) is Some) && (
                json::value_in(y, name) is Some ==> same_value(
                    json::value_in(y, name)->0,
                    json::value_in(x, name)->0,
                )) by {
                assert(json::value_in(x, name) is Some <==> json::value_in(y, name) is Some);
                if json::value_in(y, name) is Some {
                    lemma_value_in(x, name);
                    lemma_value_in(y, name);
                    let i = choose|i: int|
                        0 <= i < x.len() && #[trigger] x[i] == (name, json::value_in(x, name)->0);
                    let j = choose|j: int|
                        0 <= j < y.len() && #[trigger] y[j] == (name, json::value_in(y, name)->0);
                    assert(well_formed(x[i].1) && well_formed(y[j].1));
                    meaning_the_same_is_symmetric(x[i].1, y[j].1);
                }
            }
        },
        _ => {},
    }
}

proof fn lemma_items_well_formed(v: Seq<JsonView>)
    requires
        items_well_formed(v),
    ensures
        forall|i: int| 0 <= i < v.len() ==> well_formed(#[trigger] v[i]),
    decreases v.len(),
{
    if v.len() > 0 {
        let p = v.subrange(0, v.len() - 1);
        lemma_items_well_formed(p);
        assert forall|i: int| 0 <= i < v.len() implies well_formed(#[trigger] v[i]) by {
            if i < p.len() {
                assert(p[i] == v[i]);
            }
        }
    }
}

proof fn lemma_members_well_formed(v: Seq<(Seq<char>, JsonView)>)
    requires
        members_well_formed(v),
    ensures
        forall|i: int| 0 <= i < v.len() ==> well_formed((#[trigger] v[i]).1),
    decreases v.len(),
{
    if v.len() > 0 {
        let p = v.subrange(0, v.len() - 1);
        lemma_members_well_formed(p);
        assert forall|i: int| 0 <= i < v.len() implies well_formed((#[trigger] v[i]).1) by {
            if i < p.len() {
                assert(p[i] == v[i]);
            }
        }
    }
}

/// Carried arguments are taken in exactly where there are any, they are no longer than the limit, and
/// they are JSON; what comes out is then the value that was read. Every refusal is `OutOfBounds`.
pub proof fn carried_arguments_are_read_as_they_are(
    s: Seq<char>,
    parsed: Result<JsonView, Seq<char>>,
)
    ensures
        carried_value(s, parsed) is Ok <==> 0 < encoding::utf8(s).len() <= 65536 && parsed is Ok,
        carried_value(s, parsed) is Ok ==> carried_value(s, parsed)->Ok_0 == parsed->Ok_0,
        carried_value(s, parsed) is Err ==> carried_value(s, parsed)->Err_0 is OutOfBounds,
{
}

proof fn lemma_two_to_positive(n: nat)
    ensures
        two_to(n) >= 1,
        n >= 1 ==> two_to(n) >= 2,
        n >= 2 ==> two_to(n) >= 4,
    decreases n,
{
    if n > 0 {
        lemma_two_to_positive((n - 1) as nat);
    }
}

proof fn lemma_beyond_exact(m: int, mantissa: int, shift: nat)
    requires
        0 < m <= 9007199254740992,
        4503599627370496 <= mantissa < 9007199254740992,
        shift >= 1,
        rounds_to(m, mantissa, shift as int),
    ensures
        m == 9007199254740992,
{
    lemma_two_to_positive(shift);
    let gap = two_to(shift);
    let v = mantissa * gap;
    assert(v >= 4503599627370496 * gap) by (nonlinear_arith)
        requires
            v == mantissa * gap,
            mantissa >= 4503599627370496,
            gap >= 1,
    ;
    if m < v {
        assert(v - m >= 4503599627370496 * gap - 9007199254740992);
        if shift >= 2 {
            assert(4503599627370496 * gap - 9007199254740992 > gap);
        } else {
            assert(gap == 2) by {
                assert(two_to(0) == 1);
                assert(two_to(1) == 2 * two_to(0));
            }
            if mantissa > 4503599627370496 {
                assert(v == mantissa * 2);
            }
        }
    }
}

/// A double means at most one whole number of up to 2^53 in size: two different ones never mean the same
/// double.
pub proof fn a_double_means_one_small_whole_number(bits: u64, m: int, n: int)
    requires
        -9007199254740992 <= m <= 9007199254740992,
        -9007199254740992 <= n <= 9007199254740992,
        double_is(bits, m),
        double_is(bits, n),
    ensures
        m == n,
{
    let exponent = (bits / 4503599627370496) % 2048;
    let mantissa = 4503599627370496 + (bits % 4503599627370496);
    let shift = exponent - 1075;
    if m == 0 || n == 0 {
        assert(zero_bits(bits));
        assert(exponent == 0) by {
            assert(9223372036854775808u64 / 4503599627370496 == 2048);
            assert(0u64 / 4503599627370496 == 0);
        }
    } else {
        let (a, b) = (
            if m < 0 {
                -m
            } else {
                m
            },
            if n < 0 {
                -n
            } else {
                n
            },
        );
        assert((m < 0) == (n < 0));
        if shift <= 0 {
            let k = two_to((-shift) as nat);
            lemma_two_to_positive((-shift) as nat);
            assert(a * k == mantissa && b * k == mantissa);
            assert(a == b) by (nonlinear_arith)
                requires
                    a * k == b * k,
                    k >= 1,
            ;
        } else {
            lemma_beyond_exact(a, mantissa as int, shift as nat);
            lemma_beyond_exact(b, mantissa as int, shift as nat);
        }
    }
}

} // verus!
