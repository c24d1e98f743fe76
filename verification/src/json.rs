//! JSON values.

use serde_json::Value;
use vstd::prelude::*;
use vstd::string::*;
use crate::strings;
use crate::text;

verus! {

/// A JSON value.
#[derive(Debug)]
pub enum Json {
    /// `null`.
    Null,
    /// `true` or `false`.
    Bool(bool),
    /// A whole number that is not negative.
    Whole(u64),
    /// A negative whole number.
    Negative(i64),
    /// Any other number: the bits of its double, and the shortest decimal text that reads
    /// back as it.
    Real {
        /// The bits of the double.
        bits: u64,
        /// The decimal text.
        text: String,
    },
    /// A string.
    Text(String),
    /// An array.
    List(Vec<Json>),
    /// An object: its members, in order.
    Object(Vec<(String, Json)>),
}

/// A JSON value as mathematical values.
#[verifier::ext_equal]
pub enum JsonView {
    Null,
    Bool(bool),
    Whole(u64),
    Negative(i64),
    Real { bits: u64, text: Seq<char> },
    Text(Seq<char>),
    List(Seq<JsonView>),
    Object(Seq<(Seq<char>, JsonView)>),
}

/// The view of a JSON value.
pub open spec fn json_view(v: Json) -> JsonView
    decreases v,
{
    match v {
        Json::Null => JsonView::Null,
        Json::Bool(b) => JsonView::Bool(b),
        Json::Whole(n) => JsonView::Whole(n),
        Json::Negative(n) => JsonView::Negative(n),
        Json::Real { bits, text } => JsonView::Real { bits, text: text@ },
        Json::Text(s) => JsonView::Text(s@),
        Json::List(items) => JsonView::List(
            Seq::new(
                items@.len(),
                |i: int|
                    if 0 <= i < items@.len() {
                        json_view(items@[i])
                    } else {
                        JsonView::Null
                    },
            ),
        ),
        Json::Object(members) => JsonView::Object(
            Seq::new(
                members@.len(),
                |i: int|
                    if 0 <= i < members@.len() {
                        (members@[i].0@, json_view(members@[i].1))
                    } else {
                        (Seq::<char>::empty(), JsonView::Null)
                    },
            ),
        ),
    }
}

impl View for Json {
    type V = JsonView;

    open spec fn view(&self) -> JsonView {
        json_view(*self)
    }
}

impl Clone for Json {
    fn clone(&self) -> (r: Self)
        ensures
            r@ == self@,
        decreases self,
    {
        match self {
            Json::Null => Json::Null,
            Json::Bool(b) => Json::Bool(*b),
            Json::Whole(n) => Json::Whole(*n),
            Json::Negative(n) => Json::Negative(*n),
            Json::Real { bits, text } => Json::Real { bits: *bits, text: text.clone() },
            Json::Text(s) => Json::Text(s.clone()),
            Json::List(items) => {
                let mut out: Vec<Json> = Vec::new();
                for i in 0..items.len()
                    invariant
                        *self == Json::List(*items),
                        out@.len() == i,
                        forall|j: int| 0 <= j < i ==> (#[trigger] out@[j])@ == items@[j]@,
                {
                    assert(decreases_to!(*self => self->List_0@[i as int]));
                    let item = items[i].clone();
                    out.push(item);
                }
                let r = Json::List(out);
                assert(r@->List_0 =~= self@->List_0);
                r
            },
            Json::Object(members) => {
                let mut out: Vec<(String, Json)> = Vec::new();
                for i in 0..members.len()
                    invariant
                        *self == Json::Object(*members),
                        out@.len() == i,
                        forall|j: int|
                            0 <= j < i ==> (#[trigger] out@[j]).0@ == members@[j].0@ && out@[j].1@
                                == members@[j].1@,
                {
                    let name = members[i].0.clone();
                    assert(decreases_to!(*self => self->Object_0@[i as int].1));
                    let item = members[i].1.clone();
                    out.push((name, item));
                }
                let r = Json::Object(out);
                assert(r@->Object_0 =~= self@->Object_0);
                r
            },
        }
    }
}

// -- Strings -----------------------------------------------------------------------------------

/// The lower-case hexadecimal digit of a number below 16.
pub open spec fn low_hex(n: int) -> char {
    crate::crypto::hex_digit(n as nat)
}

/// How a character is written in a JSON string: quotes, backslashes and control characters
/// are escaped, in the short form where there is one, and all else stands for itself.
pub open spec fn escape(c: char) -> Seq<char> {
    if c == '"' {
        "\\\""@
    } else if c == '\\' {
        "\\\\"@
    } else if c == '\u{8}' {
        "\\b"@
    } else if c == '\t' {
        "\\t"@
    } else if c == '\n' {
        "\\n"@
    } else if c == '\u{c}' {
        "\\f"@
    } else if c == '\r' {
        "\\r"@
    } else if ' ' > c {
        "\\u00"@ + seq![low_hex(c as int / 16), low_hex(c as int % 16)]
    } else {
        seq![c]
    }
}

/// The characters of a text, each as it is written in a JSON string.
pub open spec fn escaped(s: Seq<char>) -> Seq<char>
    decreases s.len(),
{
    if s.len() == 0 {
        Seq::<char>::empty()
    } else {
        escaped(s.drop_last()) + escape(s.last())
    }
}

/// A text as a JSON string.
pub open spec fn json_string(s: Seq<char>) -> Seq<char> {
    "\""@ + escaped(s) + "\""@
}

/// The number of a control character.
fn control_code(c: char) -> (r: u8)
    requires
        ' ' > c,
    ensures
        r == c as int,
{
    if c == '\u{0}' {
        return 0;
    }
    if c == '\u{1}' {
        return 1;
    }
    if c == '\u{2}' {
        return 2;
    }
    if c == '\u{3}' {
        return 3;
    }
    if c == '\u{4}' {
        return 4;
    }
    if c == '\u{5}' {
        return 5;
    }
    if c == '\u{6}' {
        return 6;
    }
    if c == '\u{7}' {
        return 7;
    }
    if c == '\u{8}' {
        return 8;
    }
    if c == '\u{9}' {
        return 9;
    }
    if c == '\u{a}' {
        return 10;
    }
    if c == '\u{b}' {
        return 11;
    }
    if c == '\u{c}' {
        return 12;
    }
    if c == '\u{d}' {
        return 13;
    }
    if c == '\u{e}' {
        return 14;
    }
    if c == '\u{f}' {
        return 15;
    }
    if c == '\u{10}' {
        return 16;
    }
    if c == '\u{11}' {
        return 17;
    }
    if c == '\u{12}' {
        return 18;
    }
    if c == '\u{13}' {
        return 19;
    }
    if c == '\u{14}' {
        return 20;
    }
    if c == '\u{15}' {
        return 21;
    }
    if c == '\u{16}' {
        return 22;
    }
    if c == '\u{17}' {
        return 23;
    }
    if c == '\u{18}' {
        return 24;
    }
    if c == '\u{19}' {
        return 25;
    }
    if c == '\u{1a}' {
        return 26;
    }
    if c == '\u{1b}' {
        return 27;
    }
    if c == '\u{1c}' {
        return 28;
    }
    if c == '\u{1d}' {
        return 29;
    }
    if c == '\u{1e}' {
        return 30;
    }
    31
}

fn hex_char(n: u8) -> (r: char)
    requires
        n < 16,
    ensures
        r == low_hex(n as int),
{
    if n == 0 {
        '0'
    } else if n == 1 {
        '1'
    } else if n == 2 {
        '2'
    } else if n == 3 {
        '3'
    } else if n == 4 {
        '4'
    } else if n == 5 {
        '5'
    } else if n == 6 {
        '6'
    } else if n == 7 {
        '7'
    } else if n == 8 {
        '8'
    } else if n == 9 {
        '9'
    } else if n == 10 {
        'a'
    } else if n == 11 {
        'b'
    } else if n == 12 {
        'c'
    } else if n == 13 {
        'd'
    } else if n == 14 {
        'e'
    } else {
        'f'
    }
}

/// A text as a JSON string.
pub fn write_string(s: &str) -> (r: String)
    ensures
        r@ == json_string(s@),
{
    let chars = text::chars_of(s);
    let mut out = "\"".to_owned();
    let ghost start = "\""@;
    assert(out@ =~= start + escaped(s@.take(0)));
    for i in 0..chars.len()
        invariant
            chars@ == s@,
            out@ == start + escaped(s@.take(i as int)),
    {
        let c = chars[i];
        let ghost before = out@;
        assert(s@.take(i + 1).drop_last() =~= s@.take(i as int));
        assert(s@.take(i + 1).last() == c);
        if c == '"' {
            out.append("\\\"");
        } else if c == '\\' {
            out.append("\\\\");
        } else if c == '\u{8}' {
            out.append("\\b");
        } else if c == '\t' {
            out.append("\\t");
        } else if c == '\n' {
            out.append("\\n");
        } else if c == '\u{c}' {
            out.append("\\f");
        } else if c == '\r' {
            out.append("\\r");
        } else if ' ' > c {
            let code: u8 = control_code(c);
            out.append("\\u00");
            out.push(hex_char(code / 16));
            out.push(hex_char(code % 16));
            assert(out@ =~= before + ("\\u00"@ + seq![
                low_hex(c as int / 16),
                low_hex(c as int % 16),
            ]));
        } else {
            out.push(c);
            assert(out@ =~= before + seq![c]);
        }
        assert(out@ == before + escape(c));
        assert(out@ =~= start + escaped(s@.take(i + 1)));
    }
    assert(s@.take(s@.len() as int) =~= s@);
    out.append("\"");
    out
}

/// `serde_json::to_string` of a string: the text as a JSON string. It escapes as
/// [`write_string`] does.
#[verifier::external_body]
fn serde_string(s: &str) -> (r: String)
    ensures
        r@ == json_string(s@),
{
    serde_json::to_string(s).unwrap_or_default()
}

// -- Reading -------------------------------------------------------------------------------------

/// A JSON value as `serde_json` holds it.
#[verifier::external_type_specification]
#[verifier::external_body]
pub struct ExValue(Value);

/// What a value of `serde_json` holds.
pub uninterp spec fn value_held(v: Value) -> JsonView;

/// What reading a JSON text gives: the value, or the message of the error.
pub uninterp spec fn json_read(s: Seq<char>) -> Result<JsonView, Seq<char>>;

/// `serde_json::from_str`: a function of the text.
#[verifier::external_body]
fn parse_value(s: &str) -> (r: Result<Value, String>)
    ensures
        match r {
            Ok(v) => json_read(s@) == Ok::<JsonView, Seq<char>>(value_held(v)),
            Err(e) => json_read(s@) == Err::<JsonView, Seq<char>>(e@),
        },
{
    serde_json::from_str(s).map_err(|e: serde_json::Error| e.to_string())
}

/// The value of `serde_json` as a [`Json`], part for part: `Number::as_u64`, `as_i64` and
/// `as_f64` tell the numbers apart, and a number that is not whole keeps the text that
/// `serde_json` writes for it.
#[verifier::external_body]
fn taken_over(v: Value) -> (r: Json)
    ensures
        r@ == value_held(v),
{
    match v {
        Value::Null => Json::Null,
        Value::Bool(b) => Json::Bool(b),
        Value::Number(n) => match (n.as_u64(), n.as_i64()) {
            (Some(u), _) => Json::Whole(u),
            (_, Some(i)) => Json::Negative(i),
            _ => Json::Real {
                bits: n.as_f64().unwrap_or_default().to_bits(),
                text: n.to_string(),
            },
        },
        Value::String(s) => Json::Text(s),
        Value::Array(a) => Json::List(a.into_iter().map(taken_over).collect()),
        Value::Object(o) => Json::Object(o.into_iter().map(|(k, v)| (k, taken_over(v))).collect()),
    }
}

/// Reads a JSON text.
///
/// # Errors
/// The message of the parser where the text is no JSON.
pub fn read(s: &str) -> (r: Result<Json, String>)
    ensures
        match r {
            Ok(v) => json_read(s@) == Ok::<JsonView, Seq<char>>(v@),
            Err(e) => json_read(s@) == Err::<JsonView, Seq<char>>(e@),
        },
{
    match parse_value(s) {
        Ok(v) => Ok(taken_over(v)),
        Err(e) => Err(e),
    }
}

// -- Compact texts -------------------------------------------------------------------------------

/// The compact text of a JSON value: no spaces, members in their order.
pub open spec fn compact(v: JsonView) -> Seq<char>
    decreases v,
{
    match v {
        JsonView::Null => "null"@,
        JsonView::Bool(b) => if b {
            "true"@
        } else {
            "false"@
        },
        JsonView::Whole(n) => text::decimal(n as nat),
        JsonView::Negative(n) => text::decimal_int(n as int),
        JsonView::Real { bits, text } => text,
        JsonView::Text(s) => json_string(s),
        JsonView::List(items) => "["@ + compact_items(items) + "]"@,
        JsonView::Object(members) => "{"@ + compact_members(members) + "}"@,
    }
}

/// The compact texts of items, with commas between.
pub open spec fn compact_items(items: Seq<JsonView>) -> Seq<char>
    decreases items,
{
    if items.len() == 0 {
        Seq::<char>::empty()
    } else if items.len() == 1 {
        compact(items[0])
    } else {
        compact_items(items.subrange(0, items.len() - 1)) + ","@ + compact(items[items.len() - 1])
    }
}

/// The compact texts of members, with commas between.
pub open spec fn compact_members(members: Seq<(Seq<char>, JsonView)>) -> Seq<char>
    decreases members,
{
    if members.len() == 0 {
        Seq::<char>::empty()
    } else if members.len() == 1 {
        json_string(members[0].0) + ":"@ + compact(members[0].1)
    } else {
        compact_members(members.subrange(0, members.len() - 1)) + ","@ + (json_string(
            members[members.len() - 1].0,
        ) + ":"@ + compact(members[members.len() - 1].1))
    }
}

/// The compact text of a JSON value.
pub fn compact_text(v: &Json) -> (r: String)
    ensures
        r@ == compact(v@),
    decreases v,
{
    match v {
        Json::Null => "null".to_owned(),
        Json::Bool(b) => if *b {
            "true".to_owned()
        } else {
            "false".to_owned()
        },
        Json::Whole(n) => text::u64_text(*n),
        Json::Negative(n) => text::i64_text(*n),
        Json::Real { bits: _, text } => text.clone(),
        Json::Text(s) => serde_string(s.as_str()),
        Json::List(items) => {
            let ghost all = v@->List_0;
            let mut body = String::new();
            assert(all.subrange(0, 0) =~= Seq::<JsonView>::empty());
            for i in 0..items.len()
                invariant
                    *v == Json::List(*items),
                    all == v@->List_0,
                    all.len() == items@.len(),
                    body@ == compact_items(all.subrange(0, i as int)),
            {
                assert(decreases_to!(*v => v->List_0@[i as int]));
                let item = compact_text(&items[i]);
                assert(all[i as int] == items@[i as int]@);
                let ghost next = all.subrange(0, i + 1);
                assert(next.subrange(0, i as int) =~= all.subrange(0, i as int));
                if i > 0 {
                    body.append(",");
                }
                body.append(item.as_str());
                if i == 0 {
                    assert(body@ =~= compact(all[0]));
                    assert(next[0] == all[0]);
                } else {
                    assert(next[i as int] == all[i as int]);
                }
            }
            assert(all.subrange(0, all.len() as int) =~= all);
            let mut out = "[".to_owned();
            out.append(body.as_str());
            out.append("]");
            out
        },
        Json::Object(members) => {
            let ghost all = v@->Object_0;
            let mut body = String::new();
            assert(all.subrange(0, 0) =~= Seq::<(Seq<char>, JsonView)>::empty());
            for i in 0..members.len()
                invariant
                    *v == Json::Object(*members),
                    all == v@->Object_0,
                    all.len() == members@.len(),
                    body@ == compact_members(all.subrange(0, i as int)),
            {
                assert(decreases_to!(*v => v->Object_0@[i as int].1));
                let mut item = serde_string(members[i].0.as_str());
                item.append(":");
                item.append(compact_text(&members[i].1).as_str());
                assert(all[i as int] == (members@[i as int].0@, members@[i as int].1@));
                let ghost next = all.subrange(0, i + 1);
                assert(next.subrange(0, i as int) =~= all.subrange(0, i as int));
                if i > 0 {
                    body.append(",");
                }
                body.append(item.as_str());
                if i == 0 {
                    assert(body@ =~= item@);
                    assert(next[0] == all[0]);
                } else {
                    assert(next[i as int] == all[i as int]);
                }
            }
            assert(all.subrange(0, all.len() as int) =~= all);
            let mut out = "{".to_owned();
            out.append(body.as_str());
            out.append("}");
            out
        },
    }
}

// -- Maps ------------------------------------------------------------------------------------------

/// The views of named values.
pub open spec fn pair_views(v: Seq<(String, Json)>) -> Seq<(Seq<char>, JsonView)> {
    v.map_values(|p: (String, Json)| (p.0@, p.1@))
}

/// Whether each name comes before every later one.
pub open spec fn names_ascending(v: Seq<(Seq<char>, JsonView)>) -> bool {
    forall|i: int, j: int|
        0 <= i < j < v.len() ==> strings::lex_lt((#[trigger] v[i]).0, (#[trigger] v[j]).0)
}

/// The value of a name in a list, where it has one.
pub open spec fn value_in(v: Seq<(Seq<char>, JsonView)>, name: Seq<char>) -> Option<JsonView>
    decreases v.len(),
{
    if v.len() == 0 {
        None
    } else if v[0].0 == name {
        Some(v[0].1)
    } else {
        value_in(v.skip(1), name)
    }
}

/// Named JSON values, in the order of their names. No name occurs twice.
#[derive(Debug)]
pub struct JsonMap {
    entries: Vec<(String, Json)>,
}

/// Copies names and values.
pub fn pairs_clone(v: &Vec<(String, Json)>) -> (r: Vec<(String, Json)>)
    ensures
        pair_views(r@) == pair_views(v@),
{
    let mut out: Vec<(String, Json)> = Vec::new();
    for i in 0..v.len()
        invariant
            out@.len() == i,
            forall|j: int|
                0 <= j < i ==> (#[trigger] out@[j]).0@ == v@[j].0@ && out@[j].1@ == v@[j].1@,
    {
        let name = v[i].0.clone();
        let value = v[i].1.clone();
        out.push((name, value));
    }
    assert(pair_views(out@) =~= pair_views(v@));
    out
}

impl Clone for JsonMap {
    fn clone(&self) -> (r: Self)
        ensures
            r.pairs() == self.pairs(),
    {
        proof {
            use_type_invariant(self);
        }
        JsonMap { entries: pairs_clone(&self.entries) }
    }
}

impl JsonMap {
    /// The names and values, in the order of the names.
    pub closed spec fn pairs(&self) -> Seq<(Seq<char>, JsonView)> {
        pair_views(self.entries@)
    }

    #[verifier::type_invariant]
    spec fn ordered(&self) -> bool {
        names_ascending(pair_views(self.entries@))
    }

    /// A map without names.
    pub fn new() -> (r: Self)
        ensures
            r.pairs() == Seq::<(Seq<char>, JsonView)>::empty(),
    {
        let r = JsonMap { entries: Vec::new() };
        assert(r.pairs() =~= Seq::<(Seq<char>, JsonView)>::empty());
        r
    }

    /// The names and values, in the order of the names.
    pub fn entries(&self) -> (r: &Vec<(String, Json)>)
        ensures
            pair_views(r@) == self.pairs(),
            names_ascending(self.pairs()),
    {
        proof {
            use_type_invariant(self);
        }
        &self.entries
    }

    /// How many names the map holds.
    pub fn len(&self) -> (r: usize)
        ensures
            r == self.pairs().len(),
    {
        self.entries.len()
    }

    /// The value of a name.
    pub fn get(&self, name: &str) -> (r: Option<&Json>)
        ensures
            match r {
                Some(v) => value_in(self.pairs(), name@) == Some(v@),
                None => value_in(self.pairs(), name@) is None,
            },
    {
        let ghost all = self.pairs();
        assert(all.skip(0) =~= all);
        for i in 0..self.entries.len()
            invariant
                all == pair_views(self.entries@),
                value_in(all, name@) == value_in(all.skip(i as int), name@),
        {
            assert(all.skip(i as int)[0] == all[i as int]);
            assert(all[i as int] == (self.entries@[i as int].0@, self.entries@[i as int].1@));
            assert(all.skip(i as int).skip(1) =~= all.skip(i + 1));
            if text::str_eq(self.entries[i].0.as_str(), name) {
                return Some(&self.entries[i].1);
            }
        }
        None
    }

    /// Whether the map holds a name.
    pub fn contains_key(&self, name: &str) -> (r: bool)
        ensures
            r == (value_in(self.pairs(), name@) is Some),
    {
        self.get(name).is_some()
    }

    /// Gives a name a value, in place of the one it has, if any.
    pub fn insert(&mut self, name: String, value: Json)
        ensures
            names_ascending(final(self).pairs()),
            forall|n: Seq<char>| #[trigger]
                value_in(final(self).pairs(), n) == if n == name@ {
                    Some(value@)
                } else {
                    value_in(old(self).pairs(), n)
                },
    {
        proof {
            use_type_invariant(&*self);
        }
        let ghost before = self.pairs();
        let ghost item = (name@, value@);
        let mut out: Vec<(String, Json)> = Vec::new();
        let mut i: usize = 0;
        while i < self.entries.len() && strings::str_lt(
            self.entries[i].0.as_str(),
            name.as_str(),
        )
            invariant
                self.pairs() == before,
                before == pair_views(self.entries@),
                i <= self.entries@.len(),
                out@.len() == i,
                forall|j: int|
                    0 <= j < i ==> (#[trigger] out@[j]).0@ == before[j].0 && out@[j].1@
                        == before[j].1,
                forall|j: int| 0 <= j < i ==> strings::lex_lt((#[trigger] before[j]).0, name@),
            decreases self.entries.len() - i,
        {
            assert(before[i as int] == (self.entries@[i as int].0@, self.entries@[i as int].1@));
            out.push((self.entries[i].0.clone(), self.entries[i].1.clone()));
            i = i + 1;
        }
        let ghost k = i as int;
        let ghost head = pair_views(out@);
        assert(head =~= before.take(k));
        let mut rest: usize = i;
        if i < self.entries.len() && text::str_eq(self.entries[i].0.as_str(), name.as_str()) {
            rest = i + 1;
        }
        let ghost m = rest as int;
        proof {
            if k < before.len() {
                assert(before[k] == (self.entries@[k].0@, self.entries@[k].1@));
                strings::lemma_lex_total(before[k].0, name@);
                assert forall|j: int| m <= j < before.len() implies strings::lex_lt(
                    name@,
                    (#[trigger] before[j]).0,
                ) by {
                    if j > k {
                        assert(strings::lex_lt(before[k].0, before[j].0));
                        if m == k {
                            strings::lemma_lex_transitive(name@, before[k].0, before[j].0);
                        }
                    }
                }
            }
        }
        out.push((name, value));
        assert(pair_views(out@) =~= before.take(k).push(item));
        for j in rest..self.entries.len()
            invariant
                self.pairs() == before,
                before == pair_views(self.entries@),
                k <= m <= before.len(),
                rest == m,
                pair_views(out@) == before.take(k).push(item) + before.subrange(m, j as int),
        {
            let ghost so_far = pair_views(out@);
            assert(before[j as int] == (self.entries@[j as int].0@, self.entries@[j as int].1@));
            out.push((self.entries[j].0.clone(), self.entries[j].1.clone()));
            assert(pair_views(out@) =~= so_far.push(before[j as int]));
            assert(before.subrange(m, j + 1) =~= before.subrange(m, j as int).push(
                before[j as int],
            ));
            assert(pair_views(out@) =~= before.take(k).push(item) + before.subrange(m, j + 1));
        }
        let ghost after = pair_views(out@);
        proof {
            assert(before.subrange(m, before.len() as int) =~= before.skip(m));
            assert(after =~= before.take(k).push(item) + before.skip(m));
            assert forall|a: int, b: int| 0 <= a < b < after.len() implies strings::lex_lt(
                (#[trigger] after[a]).0,
                (#[trigger] after[b]).0,
            ) by {
                if a < k {
                    assert(after[a] == before[a]);
                    if b < k {
                        assert(after[b] == before[b]);
                    } else if b > k {
                        assert(after[b] == before[m + (b - k - 1)]);
                    }
                } else if a == k {
                    assert(after[b] == before[m + (b - k - 1)]);
                } else {
                    assert(after[a] == before[m + (a - k - 1)]);
                    assert(after[b] == before[m + (b - k - 1)]);
                }
            }
            assert forall|n: Seq<char>| #[trigger] value_in(after, n) == if n == item.0 {
                Some(item.1)
            } else {
                value_in(before, n)
            } by {
                lemma_value_after_insert(before, k, m, item, n);
            }
        }
        *self = JsonMap { entries: out };
    }
}

proof fn lemma_value_skip(v: Seq<(Seq<char>, JsonView)>, n: int, name: Seq<char>)
    requires
        0 <= n <= v.len(),
        forall|j: int| 0 <= j < n ==> (#[trigger] v[j]).0 != name,
    ensures
        value_in(v, name) == value_in(v.skip(n), name),
    decreases n,
{
    if n == 0 {
        assert(v.skip(0) =~= v);
    } else {
        assert forall|j: int| 0 <= j < n - 1 implies (#[trigger] v.skip(1)[j]).0 != name by {
            assert(v[j + 1].0 != name);
        }
        assert(v[0].0 != name);
        lemma_value_skip(v.skip(1), n - 1, name);
        assert(v.skip(1).skip(n - 1) =~= v.skip(n));
    }
}

proof fn lemma_value_at(v: Seq<(Seq<char>, JsonView)>, i: int)
    requires
        0 <= i < v.len(),
        names_ascending(v),
    ensures
        value_in(v, v[i].0) == Some(v[i].1),
{
    assert forall|j: int| 0 <= j < i implies (#[trigger] v[j]).0 != v[i].0 by {
        if v[j].0 == v[i].0 {
            strings::lemma_lex_irreflexive(v[i].0);
        }
    }
    lemma_value_skip(v, i, v[i].0);
    assert(v.skip(i)[0] == v[i]);
}

proof fn lemma_value_absent(v: Seq<(Seq<char>, JsonView)>, name: Seq<char>)
    requires
        forall|j: int| 0 <= j < v.len() ==> (#[trigger] v[j]).0 != name,
    ensures
        value_in(v, name) is None,
{
    lemma_value_skip(v, v.len() as int, name);
    assert(v.skip(v.len() as int).len() == 0);
}

proof fn lemma_value_after_insert(
    before: Seq<(Seq<char>, JsonView)>,
    k: int,
    m: int,
    item: (Seq<char>, JsonView),
    n: Seq<char>,
)
    requires
        names_ascending(before),
        0 <= k <= m <= before.len(),
        m == k || (m == k + 1 && before[k].0 == item.0),
        names_ascending(before.take(k).push(item) + before.skip(m)),
    ensures
        value_in(before.take(k).push(item) + before.skip(m), n) == if n == item.0 {
            Some(item.1)
        } else {
            value_in(before, n)
        },
{
    let after = before.take(k).push(item) + before.skip(m);
    if n == item.0 {
        assert(after[k] == item);
        lemma_value_at(after, k);
    } else if exists|j: int| 0 <= j < before.len() && (#[trigger] before[j]).0 == n {
        let j = choose|j: int| 0 <= j < before.len() && (#[trigger] before[j]).0 == n;
        lemma_value_at(before, j);
        if j < k {
            assert(after[j] == before[j]);
            lemma_value_at(after, j);
        } else {
            assert(after[k + 1 + (j - m)] == before[j]);
            lemma_value_at(after, k + 1 + (j - m));
        }
    } else {
        lemma_value_absent(before, n);
        assert forall|j: int| 0 <= j < after.len() implies (#[trigger] after[j]).0 != n by {
            if j < k {
                assert(after[j] == before[j]);
            } else if j > k {
                assert(after[j] == before[m + (j - k - 1)]);
            }
        }
        lemma_value_absent(after, n);
    }
}

/// Two maps of ascending names with the same value for each name are the same.
pub proof fn maps_are_determined(
    a: Seq<(Seq<char>, JsonView)>,
    b: Seq<(Seq<char>, JsonView)>,
)
    requires
        names_ascending(a),
        names_ascending(b),
        forall|n: Seq<char>| #[trigger] value_in(a, n) == value_in(b, n),
    ensures
        a == b,
    decreases a.len(),
{
    if a.len() == 0 {
        if b.len() > 0 {
            lemma_value_at(b, 0);
            assert(value_in(a, b[0].0) is None);
        }
        assert(a =~= b);
    } else if b.len() == 0 {
        lemma_value_at(a, 0);
        assert(value_in(b, a[0].0) is None);
    } else {
        lemma_value_at(a, 0);
        lemma_value_at(b, 0);
        if a[0].0 != b[0].0 {
            strings::lemma_lex_total(a[0].0, b[0].0);
            if strings::lex_lt(a[0].0, b[0].0) {
                lemma_before_first(b, a[0].0);
            } else {
                lemma_before_first(a, b[0].0);
            }
        }
        assert(value_in(a, a[0].0) == value_in(b, a[0].0));
        let x = a.skip(1);
        let y = b.skip(1);
        assert forall|n: Seq<char>| #[trigger] value_in(x, n) == value_in(y, n) by {
            if n == a[0].0 {
                lemma_tail_lacks(a);
                lemma_tail_lacks(b);
            } else {
                assert(value_in(a, n) == value_in(b, n));
            }
        }
        maps_are_determined(x, y);
        assert(a =~= seq![a[0]] + x);
        assert(b =~= seq![b[0]] + y);
    }
}

proof fn lemma_before_first(v: Seq<(Seq<char>, JsonView)>, n: Seq<char>)
    requires
        names_ascending(v),
        v.len() > 0,
        strings::lex_lt(n, v[0].0),
    ensures
        value_in(v, n) is None,
{
    assert forall|j: int| 0 <= j < v.len() implies (#[trigger] v[j]).0 != n by {
        if v[j].0 == n {
            if j > 0 {
                assert(strings::lex_lt(v[0].0, v[j].0));
                strings::lemma_lex_transitive(n, v[0].0, v[j].0);
            }
            strings::lemma_lex_irreflexive(n);
        }
    }
    lemma_value_absent(v, n);
}

proof fn lemma_tail_lacks(v: Seq<(Seq<char>, JsonView)>)
    requires
        names_ascending(v),
        v.len() > 0,
    ensures
        value_in(v.skip(1), v[0].0) is None,
{
    let t = v.skip(1);
    assert forall|j: int| 0 <= j < t.len() implies (#[trigger] t[j]).0 != v[0].0 by {
        assert(t[j] == v[j + 1]);
        assert(strings::lex_lt(v[0].0, v[j + 1].0));
        if t[j].0 == v[0].0 {
            strings::lemma_lex_irreflexive(v[0].0);
        }
    }
    lemma_value_absent(t, v[0].0);
}

// -- What a written string stands for ---------------------------------------------------------------------

proof fn lemma_escape_texts()
    ensures
        "\\\""@ == seq!['\\', '"'],
        "\\\\"@ == seq!['\\', '\\'],
        "\\b"@ == seq!['\\', 'b'],
        "\\t"@ == seq!['\\', 't'],
        "\\n"@ == seq!['\\', 'n'],
        "\\f"@ == seq!['\\', 'f'],
        "\\r"@ == seq!['\\', 'r'],
        "\\u00"@ == seq!['\\', 'u', '0', '0'],
        "\""@ == seq!['"'],
{
    reveal_strlit("\\\"");
    reveal_strlit("\\\\");
    reveal_strlit("\\b");
    reveal_strlit("\\t");
    reveal_strlit("\\n");
    reveal_strlit("\\f");
    reveal_strlit("\\r");
    reveal_strlit("\\u00");
    reveal_strlit("\"");
    assert("\\\""@ =~= seq!['\\', '"']);
    assert("\\\\"@ =~= seq!['\\', '\\']);
    assert("\\b"@ =~= seq!['\\', 'b']);
    assert("\\t"@ =~= seq!['\\', 't']);
    assert("\\n"@ =~= seq!['\\', 'n']);
    assert("\\f"@ =~= seq!['\\', 'f']);
    assert("\\r"@ =~= seq!['\\', 'r']);
    assert("\\u00"@ =~= seq!['\\', 'u', '0', '0']);
    assert("\""@ =~= seq!['"']);
}

spec fn short_escape(c: char) -> Option<char> {
    if c == '"' {
        Some('"')
    } else if c == '\\' {
        Some('\\')
    } else if c == '\u{8}' {
        Some('b')
    } else if c == '\t' {
        Some('t')
    } else if c == '\n' {
        Some('n')
    } else if c == '\u{c}' {
        Some('f')
    } else if c == '\r' {
        Some('r')
    } else {
        None
    }
}

proof fn lemma_escape_shape(c: char)
    ensures
        short_escape(c) is Some ==> escape(c) == seq!['\\', short_escape(c)->0],
        short_escape(c) is None && ' ' > c ==> escape(c) == seq![
            '\\',
            'u',
            '0',
            '0',
            low_hex(c as int / 16),
            low_hex(c as int % 16),
        ],
        short_escape(c) is None && c >= ' ' ==> escape(c) == seq![c] && c != '"' && c != '\\',
{
    lemma_escape_texts();
    if short_escape(c) is None && ' ' > c {
        assert(escape(c) =~= seq![
            '\\',
            'u',
            '0',
            '0',
            low_hex(c as int / 16),
            low_hex(c as int % 16),
        ]);
    }
}

proof fn lemma_escape_prefix(c: char, d: char, x: Seq<char>, y: Seq<char>)
    requires
        escape(c) + x == escape(d) + y,
    ensures
        c == d,
        x == y,
{
    lemma_escape_shape(c);
    lemma_escape_shape(d);
    let (l, r) = (escape(c) + x, escape(d) + y);
    assert(l[0] == r[0]);
    assert(l[0] == escape(c)[0] && r[0] == escape(d)[0]);
    if escape(c)[0] == '\\' {
        assert(l[1] == escape(c)[1] && r[1] == escape(d)[1]);
        if short_escape(c) is None {
            assert(l[4] == escape(c)[4] && r[4] == escape(d)[4]);
            assert(l[5] == escape(c)[5] && r[5] == escape(d)[5]);
        }
    }
    assert(c == d);
    let n = escape(c).len() as int;
    assert(l.skip(n) =~= x);
    assert(r.skip(n) =~= y);
}

proof fn lemma_escaped_front(s: Seq<char>)
    requires
        s.len() > 0,
    ensures
        escaped(s) == escape(s[0]) + escaped(s.skip(1)),
    decreases s.len(),
{
    if s.len() == 1 {
        assert(s.drop_last() =~= Seq::<char>::empty());
        assert(s.skip(1) =~= Seq::<char>::empty());
        assert(escaped(s.drop_last()) =~= Seq::<char>::empty());
        assert(escaped(s) =~= escape(s[0]));
        assert(escape(s[0]) + escaped(s.skip(1)) =~= escape(s[0]));
    } else {
        let p = s.drop_last();
        lemma_escaped_front(p);
        assert(s.skip(1).drop_last() =~= p.skip(1));
        assert(escape(s[0]) + escaped(p.skip(1)) + escape(s.last()) =~= escape(s[0]) + (escaped(
            p.skip(1),
        ) + escape(s.last())));
    }
}

proof fn lemma_escaped_prefix(a: Seq<char>, b: Seq<char>, x: Seq<char>, y: Seq<char>)
    requires
        escaped(a) + (seq!['"'] + x) == escaped(b) + (seq!['"'] + y),
    ensures
        a == b,
        x == y,
    decreases a.len() + b.len(),
{
    let q = seq!['"'];
    let (l, r) = (escaped(a) + (q + x), escaped(b) + (q + y));
    if a.len() == 0 {
        assert(l =~= q + x);
    } else {
        lemma_escaped_front(a);
        lemma_escape_shape(a[0]);
        assert(l =~= escape(a[0]) + (escaped(a.skip(1)) + (q + x)));
        assert(l[0] == escape(a[0])[0]);
    }
    if b.len() == 0 {
        assert(r =~= q + y);
    } else {
        lemma_escaped_front(b);
        lemma_escape_shape(b[0]);
        assert(r =~= escape(b[0]) + (escaped(b.skip(1)) + (q + y)));
        assert(r[0] == escape(b[0])[0]);
    }
    if a.len() == 0 && b.len() == 0 {
        assert(a =~= b);
        assert((q + x).skip(1) =~= x);
        assert((q + y).skip(1) =~= y);
    } else if a.len() > 0 && b.len() > 0 {
        lemma_escape_prefix(
            a[0],
            b[0],
            escaped(a.skip(1)) + (q + x),
            escaped(b.skip(1)) + (q + y),
        );
        lemma_escaped_prefix(a.skip(1), b.skip(1), x, y);
        assert(a =~= seq![a[0]] + a.skip(1));
        assert(b =~= seq![b[0]] + b.skip(1));
    } else {
        assert(l[0] == r[0]);
    }
}

/// A written string ends where it ends: equal texts that begin with two written strings begin with the
/// same one, and go on alike.
pub proof fn lemma_string_prefix(a: Seq<char>, b: Seq<char>, x: Seq<char>, y: Seq<char>)
    requires
        json_string(a) + x == json_string(b) + y,
    ensures
        a == b,
        x == y,
{
    lemma_escape_texts();
    let q = seq!['"'];
    let (l, r) = (json_string(a) + x, json_string(b) + y);
    assert(l.skip(1) =~= escaped(a) + (q + x));
    assert(r.skip(1) =~= escaped(b) + (q + y));
    lemma_escaped_prefix(a, b, x, y);
}

/// A written string stands for one text, whatever characters the text has: no two texts are written
/// alike.
pub proof fn a_written_string_stands_for_one_text(a: Seq<char>, b: Seq<char>)
    requires
        json_string(a) == json_string(b),
    ensures
        a == b,
{
    let none = Seq::<char>::empty();
    assert(json_string(a) + none =~= json_string(a));
    assert(json_string(b) + none =~= json_string(b));
    lemma_string_prefix(a, b, none, none);
}

/// A written string stands between quotes, and a text without quotes, backslashes and control characters
/// is written as it is.
pub proof fn a_plain_text_is_written_as_it_is(s: Seq<char>)
    ensures
        json_string(s).len() >= 2,
        json_string(s)[0] == '"',
        json_string(s).last() == '"',
        (forall|i: int|
            0 <= i < s.len() ==> #[trigger] s[i] != '"' && s[i] != '\\' && s[i] >= ' ')
            ==> json_string(s) == seq!['"'] + s + seq!['"'],
    decreases s.len(),
{
    lemma_escape_texts();
    if forall|i: int|
        0 <= i < s.len() ==> #[trigger] s[i] != '"' && s[i] != '\\' && s[i] >= ' ' {
        lemma_plain(s);
    }
}

proof fn lemma_plain(s: Seq<char>)
    requires
        forall|i: int|
            0 <= i < s.len() ==> #[trigger] s[i] != '"' && s[i] != '\\' && s[i] >= ' ',
    ensures
        escaped(s) == s,
    decreases s.len(),
{
    if s.len() > 0 {
        let p = s.drop_last();
        assert forall|i: int| 0 <= i < p.len() implies #[trigger] p[i] != '"' && p[i] != '\\' && p[i]
            >= ' ' by {
            assert(p[i] == s[i]);
        }
        lemma_plain(p);
        assert(s[s.len() - 1] == s.last());
        lemma_escape_shape(s.last());
        assert(escaped(s) =~= s);
    } else {
        assert(escaped(s) =~= s);
    }
}

/// Compact text puts lists and objects together piece by piece: a further item or member stands behind
/// a comma, and nulls, booleans, whole numbers and texts are written as JSON writes them.
pub proof fn compact_text_is_put_together_piece_by_piece(
    items: Seq<JsonView>,
    v: JsonView,
    members: Seq<(Seq<char>, JsonView)>,
    name: Seq<char>,
    n: u64,
)
    ensures
        compact(JsonView::Null) == "null"@,
        compact(JsonView::Bool(true)) == "true"@,
        compact(JsonView::Bool(false)) == "false"@,
        compact(JsonView::Whole(n)) == text::decimal(n as nat),
        compact(JsonView::Text(name)) == json_string(name),
        compact(JsonView::List(seq![])) == "[]"@,
        compact(JsonView::Object(seq![])) == "{}"@,
        compact(JsonView::List(seq![v])) == seq!['['] + compact(v) + seq![']'],
        items.len() > 0 ==> compact(JsonView::List(items.push(v))) == compact(
            JsonView::List(items),
        ).drop_last() + seq![','] + compact(v) + seq![']'],
        compact(JsonView::Object(seq![(name, v)])) == seq!['{'] + json_string(name) + seq![':']
            + compact(v) + seq!['}'],
        members.len() > 0 ==> compact(JsonView::Object(members.push((name, v)))) == compact(
            JsonView::Object(members),
        ).drop_last() + seq![','] + json_string(name) + seq![':'] + compact(v) + seq!['}'],
{
    reveal_strlit("[");
    reveal_strlit("]");
    reveal_strlit("{");
    reveal_strlit("}");
    reveal_strlit("[]");
    reveal_strlit("{}");
    reveal_strlit(",");
    reveal_strlit(":");
    assert(compact(JsonView::List(seq![])) =~= "[]"@);
    assert(compact(JsonView::Object(seq![])) =~= "{}"@);
    assert(seq![v][0] == v);
    assert(compact(JsonView::List(seq![v])) =~= seq!['['] + compact(v) + seq![']']);
    assert(seq![(name, v)][0] == (name, v));
    assert(compact(JsonView::Object(seq![(name, v)])) =~= seq!['{'] + json_string(name) + seq![':']
        + compact(v) + seq!['}']);
    if items.len() > 0 {
        let more = items.push(v);
        assert(more.subrange(0, more.len() - 1) =~= items);
        assert(more[more.len() - 1] == v);
        assert(compact(JsonView::List(more)) =~= compact(JsonView::List(items)).drop_last() + seq![',']
            + compact(v) + seq![']']);
    }
    if members.len() > 0 {
        let more = members.push((name, v));
        assert(more.subrange(0, more.len() - 1) =~= members);
        assert(more[more.len() - 1] == (name, v));
        assert(compact(JsonView::Object(more)) =~= compact(JsonView::Object(members)).drop_last()
            + seq![','] + json_string(name) + seq![':'] + compact(v) + seq!['}']);
    }
}

/// Each character that cannot stand in a string as it is has its own escape: quotes and backslashes and
/// the five usual control characters a short one, every other control character its code in hex; all
/// others stand for themselves.
pub proof fn each_character_has_its_own_escape(c: char)
    ensures
        c == '"' ==> escape(c) == seq!['\\', '"'],
        c == '\\' ==> escape(c) == seq!['\\', '\\'],
        c == '\u{8}' ==> escape(c) == seq!['\\', 'b'],
        c == '\t' ==> escape(c) == seq!['\\', 't'],
        c == '\n' ==> escape(c) == seq!['\\', 'n'],
        c == '\u{c}' ==> escape(c) == seq!['\\', 'f'],
        c == '\r' ==> escape(c) == seq!['\\', 'r'],
        ' ' > c && c != '\u{8}' && c != '\t' && c != '\n' && c != '\u{c}' && c != '\r' ==> {
            &&& escape(c).len() == 6
            &&& escape(c).take(4) == seq!['\\', 'u', '0', '0']
            &&& escape(c)[4] == if c as int >= 16 {
                '1'
            } else {
                '0'
            }
            &&& crate::crypto::hex_value(escape(c)[5]) == Some((c as int % 16) as nat)
        },
        c >= ' ' && c != '"' && c != '\\' ==> escape(c) == seq![c],
{
    lemma_escape_texts();
    lemma_escape_shape(c);
    if short_escape(c) is None && ' ' > c {
        assert(escape(c).take(4) =~= seq!['\\', 'u', '0', '0']);
    }
}

/// A written text is the escapes of its characters, one after the other, between quotes.
pub proof fn a_string_is_written_character_by_character(s: Seq<char>, c: char)
    ensures
        json_string(Seq::<char>::empty()) == seq!['"', '"'],
        json_string(s.push(c)) == json_string(s).drop_last() + escape(c) + seq!['"'],
{
    lemma_escape_texts();
    assert(s.push(c).drop_last() =~= s);
    assert(json_string(s.push(c)) =~= json_string(s).drop_last() + escape(c) + seq!['"']);
    assert(json_string(Seq::<char>::empty()) =~= seq!['"', '"']);
}

/// Compact text writes negative numbers in decimal and other numbers as they were read.
pub proof fn compact_numbers_are_written_as_they_are(n: i64, bits: u64, s: Seq<char>)
    ensures
        compact(JsonView::Negative(n)) == text::decimal_int(n as int),
        compact(JsonView::Real { bits, text: s }) == s,
{
}

} // verus!
