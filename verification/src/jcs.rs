//! The JSON Canonicalization Scheme (RFC 8785): one text for one value, so that two parties
//! who never see each other's bytes bind the same arguments to the same string.

use vstd::prelude::*;
use vstd::string::*;
use crate::error::{AgentCredsError, ErrorView};
use crate::json;
use crate::json::{Json, JsonView};
use crate::text;

verus! {

/// The profile identifier that travels on the wire alongside a binding.
pub const PROFILE: &'static str = "agentcreds-jcs-v1";

/// The largest integer that survives the JSON data model intact: above it, integers are not
/// uniquely representable as doubles.
pub const MAX_SAFE_INTEGER: u64 = 9007199254740991;

// -- Numbers -----------------------------------------------------------------------------------

/// A run of zeros.
pub open spec fn zeros(n: nat) -> Seq<char> {
    Seq::new(n, |i: int| '0')
}

/// How ECMAScript writes the number `0.digits * 10^point`, or its negation.
pub open spec fn es_text(negative: bool, digits: Seq<char>, point: int) -> Seq<char> {
    let sign = if negative {
        "-"@
    } else {
        Seq::<char>::empty()
    };
    let k = digits.len();
    if k <= point <= 21 {
        sign + digits + zeros((point - k) as nat)
    } else if 0 < point <= 21 {
        sign + digits.take(point) + "."@ + digits.skip(point)
    } else if -6 < point <= 0 {
        sign + "0."@ + zeros((-point) as nat) + digits
    } else {
        let mantissa = if k <= 1 {
            digits
        } else {
            digits.take(1) + "."@ + digits.skip(1)
        };
        let e = point - 1;
        if e >= 0 {
            sign + mantissa + "e+"@ + text::decimal(e as nat)
        } else {
            sign + mantissa + "e-"@ + text::decimal((-e) as nat)
        }
    }
}

/// The exponent that a text writes: an optional sign and one to nine digits.
pub open spec fn exponent_of(s: Seq<char>) -> Option<int> {
    let signed = s.len() > 0 && (s[0] == '-' || s[0] == '+');
    let body = if signed {
        s.skip(1)
    } else {
        s
    };
    if 1 <= body.len() <= 9 && text::all_digits(body) {
        if signed && s[0] == '-' {
            Some(-(text::digits_value(body) as int))
        } else {
            Some(text::digits_value(body) as int)
        }
    } else {
        None
    }
}

/// The parts of a decimal number.
#[verifier::ext_equal]
pub struct PartsView {
    /// Whether it is below zero.
    pub negative: bool,
    /// Its significant digits.
    pub digits: Seq<char>,
    /// Where the point stands: the number is `0.digits * 10^point`.
    pub point: int,
}

/// The parts of the decimal number that a text of at most a thousand characters writes: an
/// optional minus sign, digits, an optional point with digits behind it, and an optional `e`
/// with an exponent.
pub open spec fn number_parts(s: Seq<char>) -> Option<PartsView> {
    let at = text::next_at(s, 'e', 0);
    let mantissa = s.take(at);
    let exponent = if at < s.len() {
        exponent_of(s.skip(at + 1))
    } else {
        Some(0int)
    };
    let negative = mantissa.len() > 0 && mantissa[0] == '-';
    let body = if negative {
        mantissa.skip(1)
    } else {
        mantissa
    };
    let all = mantissa_digits(body);
    if s.len() > 1000 || whole_part(body).len() == 0 || !text::all_digits(all) || exponent is None {
        None
    } else {
        let rest = text::trimmed_start(all, '0');
        Some(
            PartsView {
                negative,
                digits: text::trimmed_end(rest, '0'),
                point: whole_part(body).len() - (all.len() - rest.len()) + exponent->0,
            },
        )
    }
}

/// Whether the bits of a double are those of a finite number.
pub open spec fn finite_bits(bits: u64) -> bool {
    (bits / 4503599627370496) % 2048 != 2047
}

/// An error about arguments.
pub open spec fn bad_arguments(detail: Seq<char>) -> ErrorView {
    ErrorView::OutOfBounds { field: "arguments"@, detail }
}

/// How a double that is no number is named.
pub open spec fn odd_name(bits: u64) -> Seq<char> {
    if bits % 4503599627370496 != 0 {
        "NaN"@
    } else if bits >= 9223372036854775808 {
        "-inf"@
    } else {
        "inf"@
    }
}

/// The canonical text of a double with a decimal text.
pub open spec fn canonical_real(bits: u64, s: Seq<char>) -> Result<Seq<char>, ErrorView> {
    if !finite_bits(bits) {
        Err(bad_arguments(odd_name(bits) + " has no JSON representation"@))
    } else {
        match number_parts(s) {
            None => Err(bad_arguments("number is not representable as an IEEE-754 double"@)),
            Some(p) => if p.digits.len() == 0 {
                Ok("0"@)
            } else {
                Ok(es_text(p.negative, p.digits, p.point))
            },
        }
    }
}

fn push_zeros(out: &mut String, n: u64)
    ensures
        final(out)@ == old(out)@ + zeros(n as nat),
{
    let ghost before = out@;
    assert(out@ =~= before + zeros(0));
    for i in 0..n
        invariant
            out@ == before + zeros(i as nat),
    {
        out.push('0');
        assert(out@ =~= before + zeros((i + 1) as nat));
    }
}

/// How ECMAScript writes the number `0.digits * 10^point`, or its negation.
pub fn es_number_text(negative: bool, digits: &str, point: i64) -> (r: String)
    requires
        -4611686018427387904 <= point <= 4611686018427387904,
    ensures
        r@ == es_text(negative, digits@, point as int),
{
    let mut out = String::new();
    if negative {
        out.append("-");
        assert(out@ =~= "-"@);
    }
    let ghost sign = if negative {
        "-"@
    } else {
        Seq::<char>::empty()
    };
    assert(out@ =~= sign);
    let k: usize = digits.unicode_len();
    if point >= 0 && k as u64 <= point as u64 && point <= 21 {
        out.append(digits);
        push_zeros(&mut out, point as u64 - k as u64);
        return out;
    }
    if 0 < point && point <= 21 {
        let at: usize = point as usize;
        let head = digits.substring_char(0, at);
        let tail = digits.substring_char(at, k);
        assert(head@ =~= digits@.take(point as int));
        assert(tail@ =~= digits@.skip(point as int));
        out.append(head);
        out.append(".");
        out.append(tail);
        return out;
    }
    if -6 < point && point <= 0 {
        out.append("0.");
        push_zeros(&mut out, (0 - point) as u64);
        out.append(digits);
        return out;
    }
    if k <= 1 {
        out.append(digits);
    } else {
        let ghost before = out@;
        let head = digits.substring_char(0, 1);
        let tail = digits.substring_char(1, k);
        assert(head@ =~= digits@.take(1));
        assert(tail@ =~= digits@.skip(1));
        out.append(head);
        out.append(".");
        out.append(tail);
        assert(out@ =~= before + (digits@.take(1) + "."@ + digits@.skip(1)));
    }
    let e: i64 = point - 1;
    if e >= 0 {
        out.append("e+");
        out.append(text::u64_text(e as u64).as_str());
    } else {
        out.append("e-");
        out.append(text::u64_text((0 - e) as u64).as_str());
    }
    out
}

fn are_digits(s: &[char]) -> (r: bool)
    ensures
        r == text::all_digits(s@),
{
    for i in 0..s.len()
        invariant
            forall|j: int| 0 <= j < i ==> text::is_digit(#[trigger] s@[j]),
    {
        if text::digit_of(s[i]).is_none() {
            assert(!text::is_digit(s@[i as int]));
            return false;
        }
    }
    true
}

proof fn lemma_digits_bound(s: Seq<char>)
    requires
        text::all_digits(s),
        s.len() <= 9,
    ensures
        text::digits_value(s) < 1000000000,
        s.len() <= 8 ==> text::digits_value(s) < 100000000,
        s.len() <= 7 ==> text::digits_value(s) < 10000000,
        s.len() <= 6 ==> text::digits_value(s) < 1000000,
        s.len() <= 5 ==> text::digits_value(s) < 100000,
        s.len() <= 4 ==> text::digits_value(s) < 10000,
        s.len() <= 3 ==> text::digits_value(s) < 1000,
        s.len() <= 2 ==> text::digits_value(s) < 100,
        s.len() <= 1 ==> text::digits_value(s) < 10,
        s.len() <= 0 ==> text::digits_value(s) < 1,
    decreases s.len(),
{
    if s.len() > 0 {
        assert(text::all_digits(s.drop_last())) by {
            assert forall|i: int| 0 <= i < s.drop_last().len() implies text::is_digit(
                #[trigger] s.drop_last()[i],
            ) by {
                assert(s.drop_last()[i] == s[i]);
            }
        }
        lemma_digits_bound(s.drop_last());
        assert(text::is_digit(s[s.len() - 1]));
    }
}

/// The exponent that characters write.
fn read_exponent(s: &[char]) -> (r: Option<i64>)
    ensures
        match r {
            Some(e) => exponent_of(s@) == Some(e as int) && -1000000000 < e < 1000000000,
            None => exponent_of(s@) is None,
        },
{
    let signed = s.len() > 0 && (s[0] == '-' || s[0] == '+');
    let start: usize = if signed {
        1
    } else {
        0
    };
    let n: usize = s.len() - start;
    let ghost body = if signed {
        s@.skip(1)
    } else {
        s@
    };
    assert(body =~= s@.skip(start as int));
    if n < 1 || n > 9 {
        return None;
    }
    let mut value: u64 = 0;
    assert(body.take(0) =~= Seq::<char>::empty());
    for i in start..s.len()
        invariant
            signed == (s@.len() > 0 && (s@[0] == '-' || s@[0] == '+')),
            start == if signed {
                1int
            } else {
                0int
            },
            body == if signed {
                s@.skip(1)
            } else {
                s@
            },
            body == s@.skip(start as int),
            1 <= body.len() <= 9,
            text::all_digits(body.take(i - start)),
            value == text::digits_value(body.take(i - start)),
            value < 1000000000,
    {
        let ghost at = i - start;
        assert(body[at] == s@[i as int]);
        assert(body.take(at + 1).drop_last() =~= body.take(at));
        assert(body.take(at + 1).last() == body[at]);
        match text::digit_of(s[i]) {
            Some(d) => {
                value = value * 10 + d;
                proof {
                    assert forall|j: int| 0 <= j < body.take(at + 1).len() implies text::is_digit(
                        #[trigger] body.take(at + 1)[j],
                    ) by {
                        if j < at {
                            assert(body.take(at)[j] == body.take(at + 1)[j]);
                        }
                    }
                    lemma_digits_bound(body.take(at + 1));
                }
            },
            None => {
                assert(!text::is_digit(body[at]));
                return None;
            },
        }
    }
    assert(body.take(body.len() as int) =~= body);
    if signed && s[0] == '-' {
        Some(0 - value as i64)
    } else {
        Some(value as i64)
    }
}

/// The first position of `c` in `s`, or the length of `s`.
fn find_char(s: &[char], c: char) -> (r: usize)
    ensures
        r == text::next_at(s@, c, 0),
        r <= s@.len(),
{
    for i in 0..s.len()
        invariant
            text::next_at(s@, c, 0) == text::next_at(s@, c, i as int),
    {
        if s[i] == c {
            return i;
        }
    }
    s.len()
}

/// The parts of a decimal number.
struct Parts {
    negative: bool,
    digits: String,
    point: i64,
}

fn copy_chars(out: &mut Vec<char>, s: &[char], from: usize, to: usize)
    requires
        from <= to <= s@.len(),
    ensures
        final(out)@ == old(out)@ + s@.subrange(from as int, to as int),
{
    let ghost before = out@;
    assert(out@ =~= before + s@.subrange(from as int, from as int));
    for i in from..to
        invariant
            from <= to <= s@.len(),
            out@ == before + s@.subrange(from as int, i as int),
    {
        out.push(s[i]);
        assert(s@.subrange(from as int, i + 1) =~= s@.subrange(from as int, i as int).push(
            s@[i as int],
        ));
        assert(out@ =~= before + s@.subrange(from as int, i + 1));
    }
}

/// The whole part of a mantissa.
pub open spec fn whole_part(body: Seq<char>) -> Seq<char> {
    body.take(text::next_at(body, '.', 0))
}

/// The digits of a mantissa, without its point.
pub open spec fn mantissa_digits(body: Seq<char>) -> Seq<char> {
    let dot = text::next_at(body, '.', 0);
    whole_part(body) + if dot < body.len() {
        body.skip(dot + 1)
    } else {
        Seq::<char>::empty()
    }
}

/// The length of the whole part of a mantissa, and its digits without the point.
fn read_mantissa(body: &[char]) -> (r: (usize, Vec<char>))
    ensures
        r.0 == whole_part(body@).len(),
        r.1@ == mantissa_digits(body@),
        r.0 <= body@.len(),
        r.1@.len() <= body@.len(),
{
    let dot: usize = find_char(body, '.');
    let mut all: Vec<char> = Vec::new();
    copy_chars(&mut all, body, 0, dot);
    let ghost whole = body@.take(dot as int);
    assert(all@ =~= whole);
    if dot < body.len() {
        copy_chars(&mut all, body, dot + 1, body.len());
        assert(all@ =~= whole + body@.skip(dot + 1));
    } else {
        assert(all@ =~= whole + Seq::<char>::empty());
    }
    (dot, all)
}

/// The number of leading zeros of some digits, and the digits without leading and trailing
/// zeros.
fn significant(all: &[char]) -> (r: (usize, String))
    ensures
        r.0 == all@.len() - text::trimmed_start(all@, '0').len(),
        r.0 <= all@.len(),
        r.1@ == text::trimmed_end(text::trimmed_start(all@, '0'), '0'),
{
    let mut lead: usize = 0;
    assert(all@.skip(0) =~= all@);
    while lead < all.len() && all[lead] == '0'
        invariant
            lead <= all@.len(),
            text::trimmed_start(all@.skip(lead as int), '0') == text::trimmed_start(all@, '0'),
        decreases all.len() - lead,
    {
        assert(all@.skip(lead as int).skip(1) =~= all@.skip(lead + 1));
        lead = lead + 1;
    }
    let ghost rest = all@.skip(lead as int);
    assert(text::trimmed_start(all@, '0') == rest);
    let mut end: usize = all.len();
    assert(all@.subrange(lead as int, end as int) =~= rest);
    while end > lead && all[end - 1] == '0'
        invariant
            lead <= end <= all@.len(),
            text::trimmed_end(all@.subrange(lead as int, end as int), '0') == text::trimmed_end(
                rest,
                '0',
            ),
        decreases end,
    {
        assert(all@.subrange(lead as int, end as int).drop_last() =~= all@.subrange(
            lead as int,
            end - 1,
        ));
        end = end - 1;
    }
    let mut digits: Vec<char> = Vec::new();
    copy_chars(&mut digits, all, lead, end);
    assert(digits@ =~= all@.subrange(lead as int, end as int));
    (lead, text::text_of(digits.as_slice()))
}

/// The parts of the decimal number that a text writes.
fn read_number(s: &str) -> (r: Option<Parts>)
    ensures
        match r {
            Some(p) => number_parts(s@) == Some(
                PartsView { negative: p.negative, digits: p.digits@, point: p.point as int },
            ) && -4611686018427387904 <= p.point <= 4611686018427387904,
            None => number_parts(s@) is None,
        },
{
    let chars = text::chars_of(s);
    if chars.len() > 1000 {
        return None;
    }
    let at: usize = find_char(chars.as_slice(), 'e');
    let ghost mantissa = s@.take(at as int);
    let exponent: Option<i64> = if at < chars.len() {
        let mut tail: Vec<char> = Vec::new();
        copy_chars(&mut tail, chars.as_slice(), at + 1, chars.len());
        assert(tail@ =~= s@.skip(at + 1));
        read_exponent(tail.as_slice())
    } else {
        Some(0)
    };
    let mut body: Vec<char> = Vec::new();
    let negative = at > 0 && chars[0] == '-';
    let start: usize = if negative {
        1
    } else {
        0
    };
    copy_chars(&mut body, chars.as_slice(), start, at);
    assert(body@ =~= if negative {
        mantissa.skip(1)
    } else {
        mantissa
    });
    let (dot, all) = read_mantissa(body.as_slice());
    if dot == 0 || !are_digits(all.as_slice()) {
        return None;
    }
    let e: i64 = match exponent {
        Some(e) => e,
        None => {
            return None;
        },
    };
    let (lead, digits) = significant(all.as_slice());
    Some(Parts { negative, digits, point: dot as i64 - lead as i64 + e })
}

fn argument_error(detail: String) -> (r: AgentCredsError)
    ensures
        r@ == bad_arguments(detail@),
{
    AgentCredsError::OutOfBounds { field: "arguments", detail }
}

/// A text result by view.
pub open spec fn text_result(r: Result<String, AgentCredsError>) -> Result<Seq<char>, ErrorView> {
    match r {
        Ok(s) => Ok(s@),
        Err(e) => Err(e@),
    }
}

/// The canonical text of a double with a decimal text.
///
/// # Errors
/// `OutOfBounds` for bits that are no finite number, or a text that is no decimal number.
pub fn canonical_number(bits: u64, s: &str) -> (r: Result<String, AgentCredsError>)
    ensures
        text_result(r) == canonical_real(bits, s@),
{
    if (bits / 4503599627370496) % 2048 == 2047 {
        let mut detail = if bits % 4503599627370496 != 0 {
            "NaN".to_owned()
        } else if bits >= 9223372036854775808 {
            "-inf".to_owned()
        } else {
            "inf".to_owned()
        };
        detail.append(" has no JSON representation");
        return Err(argument_error(detail));
    }
    match read_number(s) {
        None => Err(
            argument_error("number is not representable as an IEEE-754 double".to_owned()),
        ),
        Some(p) => if p.digits.as_str().unicode_len() == 0 {
            Ok("0".to_owned())
        } else {
            Ok(es_number_text(p.negative, p.digits.as_str(), p.point))
        },
    }
}

// -- Order of names ------------------------------------------------------------------------------

/// The UTF-16 code units of a character.
pub open spec fn units_of(c: char) -> Seq<int> {
    if (c as int) < 0x10000 {
        seq![c as int]
    } else {
        seq![0xd800 + (c as int - 0x10000) / 1024, 0xdc00 + (c as int - 0x10000) % 1024]
    }
}

/// The UTF-16 code units of a text.
pub open spec fn utf16(s: Seq<char>) -> Seq<int>
    decreases s.len(),
{
    if s.len() == 0 {
        Seq::<int>::empty()
    } else {
        units_of(s[0]) + utf16(s.skip(1))
    }
}

/// Sequences of numbers are ordered by their first difference; a proper prefix comes first.
pub open spec fn units_lt(a: Seq<int>, b: Seq<int>) -> bool
    decreases a.len(),
{
    if b.len() == 0 {
        false
    } else if a.len() == 0 {
        true
    } else if a[0] != b[0] {
        a[0] < b[0]
    } else {
        units_lt(a.skip(1), b.skip(1))
    }
}

/// Names are ordered by their UTF-16 code units.
pub open spec fn name_lt(a: Seq<char>, b: Seq<char>) -> bool {
    units_lt(utf16(a), utf16(b))
}

proof fn lemma_units_irreflexive(a: Seq<int>)
    ensures
        !units_lt(a, a),
    decreases a.len(),
{
    if a.len() > 0 {
        lemma_units_irreflexive(a.skip(1));
    }
}

proof fn lemma_units_transitive(a: Seq<int>, b: Seq<int>, c: Seq<int>)
    requires
        units_lt(a, b),
        units_lt(b, c),
    ensures
        units_lt(a, c),
    decreases a.len(),
{
    if a.len() > 0 && a[0] == b[0] && b[0] == c[0] {
        lemma_units_transitive(a.skip(1), b.skip(1), c.skip(1));
    }
}

proof fn lemma_units_total(a: Seq<int>, b: Seq<int>)
    ensures
        a == b || units_lt(a, b) || units_lt(b, a),
    decreases a.len(),
{
    if a.len() > 0 && b.len() > 0 && a[0] == b[0] {
        lemma_units_total(a.skip(1), b.skip(1));
        if a.skip(1) == b.skip(1) {
            assert(a =~= seq![a[0]] + a.skip(1));
            assert(b =~= seq![b[0]] + b.skip(1));
        }
    } else if a.len() == 0 && b.len() == 0 {
        assert(a =~= b);
    }
}

/// Whether a character comes before another in UTF-16.
fn char_lt(a: char, b: char) -> (r: bool)
    requires
        a != b,
    ensures
        r == char_before(a, b),
{
    let above_a = a >= '\u{10000}';
    let above_b = b >= '\u{10000}';
    if above_a == above_b {
        b > a
    } else if above_a {
        b >= '\u{e000}'
    } else {
        '\u{e000}' > a
    }
}

/// Whether a character comes before another in UTF-16: those beyond the basic plane come
/// after the characters before the surrogates, and before those behind them.
pub open spec fn char_before(a: char, b: char) -> bool {
    if (a as int >= 0x10000) == (b as int >= 0x10000) {
        (a as int) < (b as int)
    } else if a as int >= 0x10000 {
        b as int >= 0xe000
    } else {
        (a as int) < 0xe000
    }
}

proof fn lemma_char_units(a: char, b: char, x: Seq<int>, y: Seq<int>)
    requires
        a != b,
    ensures
        units_lt(units_of(a) + x, units_of(b) + y) == char_before(a, b),
{
    let u = units_of(a) + x;
    let w = units_of(b) + y;
    assert(u[0] == units_of(a)[0]);
    assert(w[0] == units_of(b)[0]);
    if a as int >= 0x10000 && b as int >= 0x10000 && u[0] == w[0] {
        let us = u.skip(1);
        let ws = w.skip(1);
        assert(us[0] == units_of(a)[1]);
        assert(ws[0] == units_of(b)[1]);
        assert(units_lt(u, w) == units_lt(us, ws));
        assert(us[0] != ws[0]);
        assert(units_lt(us, ws) == (us[0] < ws[0]));
    }
}

proof fn lemma_same_head(c: char, x: Seq<int>, y: Seq<int>)
    ensures
        units_lt(units_of(c) + x, units_of(c) + y) == units_lt(x, y),
{
    let u = units_of(c) + x;
    let w = units_of(c) + y;
    assert(u[0] == w[0]);
    if (c as int) < 0x10000 {
        assert(u.skip(1) =~= x);
        assert(w.skip(1) =~= y);
    } else {
        let us = u.skip(1);
        let ws = w.skip(1);
        assert(us[0] == ws[0]);
        assert(us.skip(1) =~= x);
        assert(ws.skip(1) =~= y);
        assert(units_lt(u, w) == units_lt(us, ws));
        assert(units_lt(us, ws) == units_lt(us.skip(1), ws.skip(1)));
    }
}

/// Different texts have different code units.
proof fn lemma_utf16_injective(a: Seq<char>, b: Seq<char>)
    requires
        utf16(a) == utf16(b),
    ensures
        a == b,
    decreases a.len(),
{
    if a.len() == 0 {
        if b.len() > 0 {
            assert(utf16(b).len() > 0);
        }
        assert(a =~= b);
    } else if b.len() == 0 {
        assert(utf16(a).len() > 0);
    } else if a[0] != b[0] {
        lemma_char_units(a[0], b[0], utf16(a.skip(1)), utf16(b.skip(1)));
        lemma_char_units(b[0], a[0], utf16(b.skip(1)), utf16(a.skip(1)));
        lemma_units_irreflexive(utf16(a));
    } else {
        let n = units_of(a[0]).len() as int;
        assert(utf16(a).skip(n) =~= utf16(a.skip(1)));
        assert(utf16(b).skip(n) =~= utf16(b.skip(1)));
        lemma_utf16_injective(a.skip(1), b.skip(1));
        assert(a =~= seq![a[0]] + a.skip(1));
        assert(b =~= seq![b[0]] + b.skip(1));
    }
}

/// Whether a name comes before another.
pub fn name_before(a: &str, b: &str) -> (r: bool)
    ensures
        r == name_lt(a@, b@),
{
    let x = text::chars_of(a);
    let y = text::chars_of(b);
    let n: usize = if x.len() <= y.len() {
        x.len()
    } else {
        y.len()
    };
    assert(x@.skip(0) =~= x@);
    assert(y@.skip(0) =~= y@);
    for i in 0..n
        invariant
            x@ == a@,
            y@ == b@,
            n <= x@.len(),
            n <= y@.len(),
            name_lt(a@, b@) == name_lt(x@.skip(i as int), y@.skip(i as int)),
    {
        let ghost p = x@.skip(i as int);
        let ghost q = y@.skip(i as int);
        assert(p.skip(1) =~= x@.skip(i + 1));
        assert(q.skip(1) =~= y@.skip(i + 1));
        if x[i] != y[i] {
            proof {
                lemma_char_units(p[0], q[0], utf16(p.skip(1)), utf16(q.skip(1)));
            }
            return char_lt(x[i], y[i]);
        }
        proof {
            lemma_same_head(p[0], utf16(p.skip(1)), utf16(q.skip(1)));
        }
    }
    proof {
        let p = x@.skip(n as int);
        let q = y@.skip(n as int);
        if q.len() > 0 {
            assert(utf16(q).len() > 0);
            assert(p.len() == 0);
        } else {
            assert(utf16(q).len() == 0);
        }
    }
    x.len() < y.len()
}

// -- Canonical texts -----------------------------------------------------------------------------

/// A member by its name and its text.
pub type MemberText = (Seq<char>, Seq<char>);

/// Puts a member behind those whose name does not come after its own.
pub open spec fn placed(v: Seq<MemberText>, m: MemberText) -> Seq<MemberText>
    decreases v.len(),
{
    if v.len() == 0 || !name_lt(m.0, v.last().0) {
        v.push(m)
    } else {
        placed(v.drop_last(), m).push(v.last())
    }
}

/// Members in the order of their names.
pub open spec fn in_name_order(v: Seq<MemberText>) -> Seq<MemberText>
    decreases v.len(),
{
    if v.len() == 0 {
        v
    } else {
        placed(in_name_order(v.drop_last()), v.last())
    }
}

/// Members written one after another, with commas between.
pub open spec fn joined_members(v: Seq<MemberText>) -> Seq<char>
    decreases v.len(),
{
    if v.len() == 0 {
        Seq::<char>::empty()
    } else if v.len() == 1 {
        json::json_string(v[0].0) + ":"@ + v[0].1
    } else {
        joined_members(v.drop_last()) + ","@ + (json::json_string(v.last().0) + ":"@
            + v.last().1)
    }
}

/// The canonical text of a JSON value: no spaces, members in the order of their names'
/// UTF-16 code units, numbers as ECMAScript writes them; or the error of a number that cannot
/// be written.
pub open spec fn canonical(v: JsonView) -> Result<Seq<char>, ErrorView>
    decreases v,
{
    match v {
        JsonView::Null => Ok("null"@),
        JsonView::Bool(b) => Ok(
            if b {
                "true"@
            } else {
                "false"@
            },
        ),
        JsonView::Whole(n) => Ok(text::decimal(n as nat)),
        JsonView::Negative(n) => Ok(text::decimal_int(n as int)),
        JsonView::Real { bits, text } => canonical_real(bits, text),
        JsonView::Text(s) => Ok(json::json_string(s)),
        JsonView::List(items) => match canonical_items(items) {
            Ok(t) => Ok("["@ + t + "]"@),
            Err(e) => Err(e),
        },
        JsonView::Object(members) => match canonical_members(members) {
            Ok(t) => Ok("{"@ + joined_members(in_name_order(t)) + "}"@),
            Err(e) => Err(e),
        },
    }
}

/// The canonical texts of items, with commas between.
pub open spec fn canonical_items(items: Seq<JsonView>) -> Result<Seq<char>, ErrorView>
    decreases items,
{
    if items.len() == 0 {
        Ok(Seq::<char>::empty())
    } else {
        match canonical_items(items.subrange(0, items.len() - 1)) {
            Err(e) => Err(e),
            Ok(t) => match canonical(items[items.len() - 1]) {
                Err(e) => Err(e),
                Ok(x) => Ok(
                    if items.len() == 1 {
                        x
                    } else {
                        t + ","@ + x
                    },
                ),
            },
        }
    }
}

/// The names and canonical texts of members.
pub open spec fn canonical_members(members: Seq<(Seq<char>, JsonView)>) -> Result<
    Seq<MemberText>,
    ErrorView,
>
    decreases members,
{
    if members.len() == 0 {
        Ok(Seq::<MemberText>::empty())
    } else {
        match canonical_members(members.subrange(0, members.len() - 1)) {
            Err(e) => Err(e),
            Ok(t) => match canonical(members[members.len() - 1].1) {
                Err(e) => Err(e),
                Ok(x) => Ok(t.push((members[members.len() - 1].0, x))),
            },
        }
    }
}

/// The views of members' names and texts.
pub open spec fn text_pairs(v: Seq<(String, String)>) -> Seq<MemberText> {
    v.map_values(|p: (String, String)| (p.0@, p.1@))
}

/// Puts a member behind those whose name does not come after its own.
fn place(v: &mut Vec<(String, String)>, name: String, body: String)
    ensures
        text_pairs(final(v)@) == placed(text_pairs(old(v)@), (name@, body@)),
{
    let ghost before = text_pairs(v@);
    let ghost m = (name@, body@);
    let mut i: usize = v.len();
    assert(before.take(before.len() as int) =~= before);
    assert(before.skip(before.len() as int) =~= Seq::<MemberText>::empty());
    assert(placed(before, m) =~= placed(before.take(i as int), m) + before.skip(i as int));
    while i > 0 && name_before(name.as_str(), v[i - 1].0.as_str())
        invariant
            before == text_pairs(v@),
            i <= v@.len(),
            m == (name@, body@),
            placed(before, m) == placed(before.take(i as int), m) + before.skip(i as int),
        decreases i,
    {
        proof {
            let cut = before.take(i as int);
            assert(before[i - 1] == (v@[i - 1].0@, v@[i - 1].1@));
            assert(cut.last() == before[i - 1]);
            assert(cut.drop_last() =~= before.take(i - 1));
            assert(placed(before.take(i - 1), m).push(before[i - 1]) + before.skip(i as int)
                =~= placed(before.take(i - 1), m) + before.skip(i - 1));
        }
        i = i - 1;
    }
    proof {
        let cut = before.take(i as int);
        if i > 0 {
            assert(before[i - 1] == (v@[i - 1].0@, v@[i - 1].1@));
            assert(cut.last() == before[i - 1]);
        }
        assert(placed(cut, m) == cut.push(m));
    }
    v.insert(i, (name, body));
    assert(text_pairs(v@) =~= before.insert(i as int, m));
    assert(before.insert(i as int, m) =~= before.take(i as int).push(m) + before.skip(i as int));
}

/// Members written one after another, with commas between.
fn join(v: &Vec<(String, String)>) -> (r: String)
    ensures
        r@ == joined_members(text_pairs(v@)),
{
    let ghost all = text_pairs(v@);
    let mut out = String::new();
    assert(all.take(0) =~= Seq::<MemberText>::empty());
    for i in 0..v.len()
        invariant
            all == text_pairs(v@),
            out@ == joined_members(all.take(i as int)),
    {
        assert(all[i as int] == (v@[i as int].0@, v@[i as int].1@));
        assert(all.take(i + 1).drop_last() =~= all.take(i as int));
        assert(all.take(i + 1).last() == all[i as int]);
        let mut item = json::write_string(v[i].0.as_str());
        item.append(":");
        item.append(v[i].1.as_str());
        if i > 0 {
            out.append(",");
        }
        out.append(item.as_str());
        if i == 0 {
            assert(out@ =~= item@);
            assert(all.take(1)[0] == all[0]);
        }
    }
    assert(all.take(all.len() as int) =~= all);
    out
}

/// The canonical form of `value`.
///
/// # Errors
/// `OutOfBounds` where a number cannot be written.
pub fn canonicalize(value: &Json) -> (r: Result<String, AgentCredsError>)
    ensures
        text_result(r) == canonical(value@),
    decreases value,
{
    match value {
        Json::Null => Ok("null".to_owned()),
        Json::Bool(b) => Ok(
            if *b {
                "true".to_owned()
            } else {
                "false".to_owned()
            },
        ),
        Json::Whole(n) => Ok(text::u64_text(*n)),
        Json::Negative(n) => Ok(text::i64_text(*n)),
        Json::Real { bits, text } => canonical_number(*bits, text.as_str()),
        Json::Text(s) => Ok(json::write_string(s.as_str())),
        Json::List(items) => {
            let ghost all = value@->List_0;
            let mut body = String::new();
            assert(all.subrange(0, 0) =~= Seq::<JsonView>::empty());
            for i in 0..items.len()
                invariant
                    *value == Json::List(*items),
                    all == value@->List_0,
                    all.len() == items@.len(),
                    canonical_items(all.subrange(0, i as int)) == Ok::<Seq<char>, ErrorView>(body@),
            {
                assert(decreases_to!(*value => value->List_0@[i as int]));
                assert(all[i as int] == items@[i as int]@);
                let ghost next = all.subrange(0, i + 1);
                assert(next.subrange(0, i as int) =~= all.subrange(0, i as int));
                assert(next[i as int] == all[i as int]);
                match canonicalize(&items[i]) {
                    Ok(item) => {
                        if i > 0 {
                            body.append(",");
                        }
                        body.append(item.as_str());
                        if i == 0 {
                            assert(body@ =~= item@);
                        }
                    },
                    Err(e) => {
                        proof {
                            lemma_item_error(all, i + 1);
                        }
                        return Err(e);
                    },
                }
            }
            assert(all.subrange(0, all.len() as int) =~= all);
            let mut out = "[".to_owned();
            out.append(body.as_str());
            out.append("]");
            Ok(out)
        },
        Json::Object(members) => {
            let ghost all = value@->Object_0;
            let mut pairs: Vec<(String, String)> = Vec::new();
            let ghost mut texts = Seq::<MemberText>::empty();
            assert(all.subrange(0, 0) =~= Seq::<(Seq<char>, JsonView)>::empty());
            assert(text_pairs(pairs@) =~= in_name_order(texts));
            for i in 0..members.len()
                invariant
                    *value == Json::Object(*members),
                    all == value@->Object_0,
                    all.len() == members@.len(),
                    canonical_members(all.subrange(0, i as int)) == Ok::<
                        Seq<MemberText>,
                        ErrorView,
                    >(texts),
                    text_pairs(pairs@) == in_name_order(texts),
            {
                assert(decreases_to!(*value => value->Object_0@[i as int].1));
                assert(all[i as int] == (members@[i as int].0@, members@[i as int].1@));
                let ghost next = all.subrange(0, i + 1);
                assert(next.subrange(0, i as int) =~= all.subrange(0, i as int));
                assert(next[i as int] == all[i as int]);
                match canonicalize(&members[i].1) {
                    Ok(item) => {
                        proof {
                            let m = (members@[i as int].0@, item@);
                            assert(texts.push(m).drop_last() =~= texts);
                            texts = texts.push(m);
                        }
                        place(&mut pairs, members[i].0.clone(), item);
                    },
                    Err(e) => {
                        proof {
                            lemma_member_error(all, i + 1);
                        }
                        return Err(e);
                    },
                }
            }
            assert(all.subrange(0, all.len() as int) =~= all);
            let mut out = "{".to_owned();
            out.append(join(&pairs).as_str());
            out.append("}");
            Ok(out)
        },
    }
}

proof fn lemma_item_error(items: Seq<JsonView>, n: int)
    requires
        0 <= n <= items.len(),
        canonical_items(items.subrange(0, n)) is Err,
    ensures
        canonical_items(items) == canonical_items(items.subrange(0, n)),
    decreases items.len(),
{
    if n == items.len() {
        assert(items.subrange(0, n) =~= items);
    } else {
        let rest = items.subrange(0, items.len() - 1);
        assert(rest.subrange(0, n) =~= items.subrange(0, n));
        lemma_item_error(rest, n);
    }
}

proof fn lemma_member_error(members: Seq<(Seq<char>, JsonView)>, n: int)
    requires
        0 <= n <= members.len(),
        canonical_members(members.subrange(0, n)) is Err,
    ensures
        canonical_members(members) is Err,
        canonical_members(members)->Err_0 == canonical_members(members.subrange(0, n))->Err_0,
    decreases members.len(),
{
    if n == members.len() {
        assert(members.subrange(0, n) =~= members);
    } else {
        let rest = members.subrange(0, members.len() - 1);
        assert(rest.subrange(0, n) =~= members.subrange(0, n));
        lemma_member_error(rest, n);
    }
}

// -- Hazards -----------------------------------------------------------------------------------

/// A character of a JSON Pointer token: `~` and `/` are escaped.
pub open spec fn pointer_char(c: char) -> Seq<char> {
    if c == '~' {
        "~0"@
    } else if c == '/' {
        "~1"@
    } else {
        seq![c]
    }
}

/// A JSON Pointer token.
pub open spec fn pointer_token(s: Seq<char>) -> Seq<char>
    decreases s.len(),
{
    if s.len() == 0 {
        Seq::<char>::empty()
    } else {
        pointer_token(s.drop_last()) + pointer_char(s.last())
    }
}

/// The places of the integers in a value that are too large to survive the JSON data model,
/// each as a JSON Pointer below `at` with the integer's text.
pub open spec fn hazards(v: JsonView, at: Seq<char>) -> Seq<MemberText>
    decreases v,
{
    match v {
        JsonView::Whole(n) => if n > MAX_SAFE_INTEGER {
            seq![(at, text::decimal(n as nat))]
        } else {
            Seq::<MemberText>::empty()
        },
        JsonView::Negative(n) => if n > MAX_SAFE_INTEGER || -n > MAX_SAFE_INTEGER {
            seq![(at, text::decimal_int(n as int))]
        } else {
            Seq::<MemberText>::empty()
        },
        JsonView::List(items) => item_hazards(items, at),
        JsonView::Object(members) => member_hazards(members, at),
        _ => Seq::<MemberText>::empty(),
    }
}

/// The hazards of items.
pub open spec fn item_hazards(items: Seq<JsonView>, at: Seq<char>) -> Seq<MemberText>
    decreases items,
{
    if items.len() == 0 {
        Seq::<MemberText>::empty()
    } else {
        item_hazards(items.subrange(0, items.len() - 1), at) + hazards(
            items[items.len() - 1],
            at + "/"@ + text::decimal((items.len() - 1) as nat),
        )
    }
}

/// The hazards of members.
pub open spec fn member_hazards(members: Seq<(Seq<char>, JsonView)>, at: Seq<char>) -> Seq<
    MemberText,
>
    decreases members,
{
    if members.len() == 0 {
        Seq::<MemberText>::empty()
    } else {
        member_hazards(members.subrange(0, members.len() - 1), at) + hazards(
            members[members.len() - 1].1,
            at + "/"@ + pointer_token(members[members.len() - 1].0),
        )
    }
}

fn write_token(s: &str) -> (r: String)
    ensures
        r@ == pointer_token(s@),
{
    let chars = text::chars_of(s);
    let mut out = String::new();
    assert(out@ =~= pointer_token(s@.take(0)));
    for i in 0..chars.len()
        invariant
            chars@ == s@,
            out@ == pointer_token(s@.take(i as int)),
    {
        assert(s@.take(i + 1).drop_last() =~= s@.take(i as int));
        assert(s@.take(i + 1).last() == chars@[i as int]);
        let ghost before = out@;
        if chars[i] == '~' {
            out.append("~0");
        } else if chars[i] == '/' {
            out.append("~1");
        } else {
            out.push(chars[i]);
            assert(out@ =~= before + seq![chars@[i as int]]);
        }
    }
    assert(s@.take(s@.len() as int) =~= s@);
    out
}

fn walk_hazards(value: &Json, at: &str, found: &mut Vec<(String, String)>)
    ensures
        text_pairs(final(found)@) == text_pairs(old(found)@) + hazards(value@, at@),
    decreases value,
{
    let ghost before = text_pairs(found@);
    match value {
        Json::Whole(n) => {
            if *n > MAX_SAFE_INTEGER {
                found.push((at.to_owned(), text::u64_text(*n)));
            }
            assert(text_pairs(found@) =~= before + hazards(value@, at@));
        },
        Json::Negative(n) => {
            if *n > 9007199254740991 || *n < -9007199254740991 {
                found.push((at.to_owned(), text::i64_text(*n)));
            }
            assert(text_pairs(found@) =~= before + hazards(value@, at@));
        },
        Json::List(items) => {
            let ghost all = value@->List_0;
            assert(all.subrange(0, 0) =~= Seq::<JsonView>::empty());
            assert(text_pairs(found@) =~= before + item_hazards(all.subrange(0, 0), at@));
            for i in 0..items.len()
                invariant
                    *value == Json::List(*items),
                    all == value@->List_0,
                    all.len() == items@.len(),
                    text_pairs(found@) == before + item_hazards(all.subrange(0, i as int), at@),
            {
                assert(decreases_to!(*value => value->List_0@[i as int]));
                assert(all[i as int] == items@[i as int]@);
                let ghost next = all.subrange(0, i + 1);
                assert(next.subrange(0, i as int) =~= all.subrange(0, i as int));
                let mut below = at.to_owned();
                below.append("/");
                below.append(text::u64_text(i as u64).as_str());
                walk_hazards(&items[i], below.as_str(), found);
                assert(text_pairs(found@) =~= before + item_hazards(next, at@));
            }
            assert(all.subrange(0, all.len() as int) =~= all);
        },
        Json::Object(members) => {
            let ghost all = value@->Object_0;
            assert(all.subrange(0, 0) =~= Seq::<(Seq<char>, JsonView)>::empty());
            assert(text_pairs(found@) =~= before + member_hazards(all.subrange(0, 0), at@));
            for i in 0..members.len()
                invariant
                    *value == Json::Object(*members),
                    all == value@->Object_0,
                    all.len() == members@.len(),
                    text_pairs(found@) == before + member_hazards(
                        all.subrange(0, i as int),
                        at@,
                    ),
            {
                assert(decreases_to!(*value => value->Object_0@[i as int].1));
                assert(all[i as int] == (members@[i as int].0@, members@[i as int].1@));
                let ghost next = all.subrange(0, i + 1);
                assert(next.subrange(0, i as int) =~= all.subrange(0, i as int));
                let mut below = at.to_owned();
                below.append("/");
                below.append(write_token(members[i].0.as_str()).as_str());
                walk_hazards(&members[i].1, below.as_str(), found);
                assert(text_pairs(found@) =~= before + member_hazards(next, at@));
            }
            assert(all.subrange(0, all.len() as int) =~= all);
        },
        _ => {
            assert(text_pairs(found@) =~= before + hazards(value@, at@));
        },
    }
}

/// JSON Pointers (RFC 6901) to every integer in `value` too large to survive the JSON data
/// model, paired with the offending integer as text. Empty is the ordinary case.
#[must_use]
pub fn precision_hazards(value: &Json) -> (r: Vec<(String, String)>)
    ensures
        text_pairs(r@) == hazards(value@, Seq::<char>::empty()),
{
    let mut found: Vec<(String, String)> = Vec::new();
    let root = String::new();
    assert(root@ =~= Seq::<char>::empty());
    assert(text_pairs(found@) =~= Seq::<MemberText>::empty());
    walk_hazards(value, root.as_str(), &mut found);
    assert(text_pairs(found@) =~= hazards(value@, Seq::<char>::empty()));
    found
}

// -- Laws ----------------------------------------------------------------------------------------

/// Whether each name comes before every later one.
pub open spec fn strictly_ordered(v: Seq<MemberText>) -> bool {
    forall|i: int, j: int|
        0 <= i < j < v.len() ==> name_lt((#[trigger] v[i]).0, (#[trigger] v[j]).0)
}

/// Whether no name occurs twice among members.
pub open spec fn names_distinct(v: Seq<(Seq<char>, JsonView)>) -> bool {
    forall|i: int, j: int|
        0 <= i < j < v.len() ==> (#[trigger] v[i]).0 != (#[trigger] v[j]).0
}

proof fn lemma_name_order(a: Seq<char>, b: Seq<char>, c: Seq<char>)
    ensures
        !name_lt(a, a),
        a == b || name_lt(a, b) || name_lt(b, a),
        name_lt(a, b) && name_lt(b, c) ==> name_lt(a, c),
{
    lemma_units_irreflexive(utf16(a));
    lemma_units_total(utf16(a), utf16(b));
    if utf16(a) == utf16(b) {
        lemma_utf16_injective(a, b);
    }
    if name_lt(a, b) && name_lt(b, c) {
        lemma_units_transitive(utf16(a), utf16(b), utf16(c));
    }
}

proof fn lemma_placed(v: Seq<MemberText>, m: MemberText)
    ensures
        placed(v, m).len() == v.len() + 1,
        forall|x: MemberText| #[trigger] placed(v, m).contains(x) <==> v.contains(x) || x == m,
        strictly_ordered(v) && (forall|i: int| 0 <= i < v.len() ==> (#[trigger] v[i]).0 != m.0)
            ==> strictly_ordered(placed(v, m)),
    decreases v.len(),
{
    let p = placed(v, m);
    if v.len() == 0 || !name_lt(m.0, v.last().0) {
        assert forall|x: MemberText| #[trigger] p.contains(x) <==> v.contains(x) || x == m by {
            if v.contains(x) {
                let i = choose|i: int| 0 <= i < v.len() && v[i] == x;
                assert(p[i] == x);
            }
            if p.contains(x) && x != m {
                let i = choose|i: int| 0 <= i < p.len() && p[i] == x;
                assert(v[i] == x);
            }
            assert(p[v.len() as int] == m);
        }
        if strictly_ordered(v) && (forall|i: int|
            0 <= i < v.len() ==> (#[trigger] v[i]).0 != m.0) {
            assert forall|i: int, j: int| 0 <= i < j < p.len() implies name_lt(
                (#[trigger] p[i]).0,
                (#[trigger] p[j]).0,
            ) by {
                assert(p[i] == v[i]);
                if j == v.len() {
                    lemma_name_order(v.last().0, m.0, m.0);
                    lemma_name_order(v[i].0, v.last().0, m.0);
                }
            }
        }
    } else {
        let rest = v.drop_last();
        lemma_placed(rest, m);
        let q = placed(rest, m);
        assert forall|x: MemberText| #[trigger] p.contains(x) <==> v.contains(x) || x == m by {
            if v.contains(x) {
                let i = choose|i: int| 0 <= i < v.len() && v[i] == x;
                if i < rest.len() {
                    assert(rest[i] == x);
                    assert(q.contains(x));
                    let k = choose|k: int| 0 <= k < q.len() && q[k] == x;
                    assert(p[k] == x);
                } else {
                    assert(p[q.len() as int] == x);
                }
            }
            if x == m {
                assert(q.contains(x));
                let k = choose|k: int| 0 <= k < q.len() && q[k] == x;
                assert(p[k] == x);
            }
            if p.contains(x) {
                let i = choose|i: int| 0 <= i < p.len() && p[i] == x;
                if i < q.len() {
                    assert(q[i] == x);
                    assert(q.contains(x));
                    if rest.contains(x) {
                        let k = choose|k: int| 0 <= k < rest.len() && rest[k] == x;
                        assert(v[k] == x);
                    }
                } else {
                    assert(v[v.len() - 1] == x);
                }
            }
        }
        if strictly_ordered(v) && (forall|i: int|
            0 <= i < v.len() ==> (#[trigger] v[i]).0 != m.0) {
            assert forall|i: int| 0 <= i < rest.len() implies (#[trigger] rest[i]).0 != m.0 by {
                assert(v[i].0 != m.0);
            }
            assert(strictly_ordered(rest)) by {
                assert forall|i: int, j: int| 0 <= i < j < rest.len() implies name_lt(
                    (#[trigger] rest[i]).0,
                    (#[trigger] rest[j]).0,
                ) by {
                    assert(rest[i] == v[i] && rest[j] == v[j]);
                }
            }
            assert forall|i: int, j: int| 0 <= i < j < p.len() implies name_lt(
                (#[trigger] p[i]).0,
                (#[trigger] p[j]).0,
            ) by {
                assert(p[i] == q[i]);
                if j < q.len() {
                    assert(p[j] == q[j]);
                } else {
                    assert(q.contains(q[i]));
                    if q[i] != m {
                        let k = choose|k: int| 0 <= k < rest.len() && rest[k] == q[i];
                        assert(v[k] == q[i]);
                    }
                }
            }
        }
    }
}

proof fn lemma_in_name_order(v: Seq<MemberText>)
    ensures
        in_name_order(v).len() == v.len(),
        forall|x: MemberText| #[trigger] in_name_order(v).contains(x) <==> v.contains(x),
        (forall|i: int, j: int|
            0 <= i < j < v.len() ==> (#[trigger] v[i]).0 != (#[trigger] v[j]).0)
            ==> strictly_ordered(in_name_order(v)),
    decreases v.len(),
{
    if v.len() > 0 {
        let rest = v.drop_last();
        let m = v.last();
        lemma_in_name_order(rest);
        let q = in_name_order(rest);
        lemma_placed(q, m);
        assert forall|x: MemberText| #[trigger] in_name_order(v).contains(x) <==> v.contains(x) by {
            if v.contains(x) {
                let i = choose|i: int| 0 <= i < v.len() && v[i] == x;
                if i < rest.len() {
                    assert(rest[i] == x);
                }
            }
            if rest.contains(x) {
                let i = choose|i: int| 0 <= i < rest.len() && rest[i] == x;
                assert(v[i] == x);
            }
            assert(v[v.len() - 1] == m);
        }
        if forall|i: int, j: int|
            0 <= i < j < v.len() ==> (#[trigger] v[i]).0 != (#[trigger] v[j]).0 {
            assert forall|i: int, j: int| 0 <= i < j < rest.len() implies (
            #[trigger] rest[i]).0 != (#[trigger] rest[j]).0 by {
                assert(rest[i] == v[i] && rest[j] == v[j]);
            }
            assert forall|i: int| 0 <= i < q.len() implies (#[trigger] q[i]).0 != m.0 by {
                assert(q.contains(q[i]));
                let k = choose|k: int| 0 <= k < rest.len() && rest[k] == q[i];
                assert(v[k].0 != v[v.len() - 1].0);
            }
        }
    }
}

/// Two strictly ordered lists of the same members are the same list.
proof fn lemma_order_unique(a: Seq<MemberText>, b: Seq<MemberText>)
    requires
        strictly_ordered(a),
        strictly_ordered(b),
        forall|x: MemberText| #[trigger] a.contains(x) <==> b.contains(x),
    ensures
        a == b,
    decreases a.len(),
{
    if a.len() == 0 {
        if b.len() > 0 {
            assert(b.contains(b[0]));
            assert(a.contains(b[0]));
        }
        assert(a =~= b);
    } else {
        assert(a.contains(a[0]));
        assert(b.contains(a[0]));
        let i = choose|i: int| 0 <= i < b.len() && b[i] == a[0];
        assert(b.contains(b[0]));
        assert(a.contains(b[0]));
        let j = choose|j: int| 0 <= j < a.len() && a[j] == b[0];
        if i > 0 {
            assert(name_lt(b[0].0, b[i].0));
            if j > 0 {
                assert(name_lt(a[0].0, a[j].0));
                lemma_name_order(a[0].0, b[0].0, a[0].0);
            } else {
                lemma_name_order(a[0].0, a[0].0, a[0].0);
            }
        }
        assert(a[0] == b[0]);
        let x = a.skip(1);
        let y = b.skip(1);
        assert(strictly_ordered(x)) by {
            assert forall|p: int, q: int| 0 <= p < q < x.len() implies name_lt(
                (#[trigger] x[p]).0,
                (#[trigger] x[q]).0,
            ) by {
                assert(x[p] == a[p + 1] && x[q] == a[q + 1]);
            }
        }
        assert(strictly_ordered(y)) by {
            assert forall|p: int, q: int| 0 <= p < q < y.len() implies name_lt(
                (#[trigger] y[p]).0,
                (#[trigger] y[q]).0,
            ) by {
                assert(y[p] == b[p + 1] && y[q] == b[q + 1]);
            }
        }
        assert forall|m: MemberText| #[trigger] x.contains(m) <==> y.contains(m) by {
            lemma_tail_contains(a, m);
            lemma_tail_contains(b, m);
        }
        lemma_order_unique(x, y);
        assert(a =~= seq![a[0]] + x);
        assert(b =~= seq![b[0]] + y);
    }
}

proof fn lemma_tail_contains(a: Seq<MemberText>, m: MemberText)
    requires
        a.len() > 0,
        strictly_ordered(a),
    ensures
        a.skip(1).contains(m) <==> a.contains(m) && m != a[0],
{
    let x = a.skip(1);
    if x.contains(m) {
        let i = choose|i: int| 0 <= i < x.len() && x[i] == m;
        assert(a[i + 1] == m);
        assert(name_lt(a[0].0, a[i + 1].0));
        lemma_name_order(a[0].0, a[0].0, a[0].0);
    }
    if a.contains(m) && m != a[0] {
        let i = choose|i: int| 0 <= i < a.len() && a[i] == m;
        assert(x[i - 1] == m);
    }
}

proof fn lemma_member_texts(v: Seq<(Seq<char>, JsonView)>)
    ensures
        canonical_members(v) is Ok <==> forall|i: int|
            0 <= i < v.len() ==> canonical((#[trigger] v[i]).1) is Ok,
        canonical_members(v) is Ok ==> {
            &&& canonical_members(v)->Ok_0.len() == v.len()
            &&& forall|i: int|
                0 <= i < v.len() ==> (#[trigger] canonical_members(v)->Ok_0[i]) == (
                    v[i].0,
                    canonical(v[i].1)->Ok_0,
                )
        },
    decreases v.len(),
{
    if v.len() > 0 {
        let rest = v.subrange(0, v.len() - 1);
        lemma_member_texts(rest);
        assert forall|i: int| 0 <= i < rest.len() implies #[trigger] rest[i] == v[i] by {}
        if canonical_members(v) is Ok {
            assert(canonical_members(rest) is Ok);
            assert forall|i: int| 0 <= i < v.len() implies canonical((#[trigger] v[i]).1) is Ok by {
                if i < rest.len() {
                    assert(rest[i] == v[i]);
                }
            }
        }
        if forall|i: int| 0 <= i < v.len() ==> canonical((#[trigger] v[i]).1) is Ok {
            assert forall|i: int| 0 <= i < rest.len() implies canonical(
                (#[trigger] rest[i]).1,
            ) is Ok by {
                assert(rest[i] == v[i]);
            }
            assert(canonical(v[v.len() - 1].1) is Ok);
        }
    }
}

/// The canonical text of an object does not depend on the order of its members: two objects
/// with the same members, no name twice in either, have the same canonical text.
pub proof fn canonical_text_ignores_member_order(
    a: Seq<(Seq<char>, JsonView)>,
    b: Seq<(Seq<char>, JsonView)>,
)
    requires
        names_distinct(a),
        names_distinct(b),
        forall|m: (Seq<char>, JsonView)| #[trigger] a.contains(m) <==> b.contains(m),
        canonical(JsonView::Object(a)) is Ok,
    ensures
        canonical(JsonView::Object(b)) == canonical(JsonView::Object(a)),
{
    lemma_member_texts(a);
    lemma_member_texts(b);
    assert(canonical_members(a) is Ok);
    assert forall|i: int| 0 <= i < b.len() implies canonical((#[trigger] b[i]).1) is Ok by {
        assert(b.contains(b[i]));
        assert(a.contains(b[i]));
        let j = choose|j: int| 0 <= j < a.len() && a[j] == b[i];
        assert(canonical(a[j].1) is Ok);
    }
    let x = canonical_members(a)->Ok_0;
    let y = canonical_members(b)->Ok_0;
    lemma_same_texts(a, b, x, y);
    lemma_same_texts(b, a, y, x);
    lemma_in_name_order(x);
    lemma_in_name_order(y);
    assert forall|i: int, j: int| 0 <= i < j < x.len() implies (#[trigger] x[i]).0 != (
    #[trigger] x[j]).0 by {
        assert(a[i].0 != a[j].0);
    }
    assert forall|i: int, j: int| 0 <= i < j < y.len() implies (#[trigger] y[i]).0 != (
    #[trigger] y[j]).0 by {
        assert(b[i].0 != b[j].0);
    }
    assert forall|m: MemberText| #[trigger]
        in_name_order(x).contains(m) <==> in_name_order(y).contains(m) by {
        assert(x.contains(m) <==> y.contains(m));
    }
    lemma_order_unique(in_name_order(x), in_name_order(y));
}

proof fn lemma_same_texts(
    a: Seq<(Seq<char>, JsonView)>,
    b: Seq<(Seq<char>, JsonView)>,
    x: Seq<MemberText>,
    y: Seq<MemberText>,
)
    requires
        forall|m: (Seq<char>, JsonView)| #[trigger] a.contains(m) ==> b.contains(m),
        canonical_members(a) == Ok::<Seq<MemberText>, ErrorView>(x),
        canonical_members(b) == Ok::<Seq<MemberText>, ErrorView>(y),
    ensures
        forall|m: MemberText| #[trigger] x.contains(m) ==> y.contains(m),
{
    lemma_member_texts(a);
    lemma_member_texts(b);
    assert forall|m: MemberText| #[trigger] x.contains(m) implies y.contains(m) by {
        let i = choose|i: int| 0 <= i < x.len() && x[i] == m;
        assert(canonical_members(a)->Ok_0[i] == m);
        assert(a.contains(a[i]));
        assert(b.contains(a[i]));
        let j = choose|j: int| 0 <= j < b.len() && b[j] == a[i];
        assert(canonical_members(b)->Ok_0[j] == m);
        assert(y[j] == m);
    }
}

// -- What a canonical text stands for -----------------------------------------------------------------------

/// Whether a value is a number, however it was read.
pub open spec fn is_number(v: JsonView) -> bool {
    v is Whole || v is Negative || v is Real
}

spec fn numeric(c: char) -> bool {
    text::is_digit(c) || c == '-' || c == '+' || c == '.' || c == 'e'
}

spec fn all_numeric(s: Seq<char>) -> bool {
    forall|i: int| 0 <= i < s.len() ==> numeric(#[trigger] s[i])
}

spec fn numeral(s: Seq<char>) -> bool {
    s.len() > 0 && all_numeric(s) && (text::is_digit(s[0]) || s[0] == '-')
}

proof fn lemma_numeric_concat(a: Seq<char>, b: Seq<char>)
    requires
        all_numeric(a),
        all_numeric(b),
    ensures
        all_numeric(a + b),
{
    assert forall|i: int| 0 <= i < (a + b).len() implies numeric(#[trigger] (a + b)[i]) by {
        if i < a.len() {
            assert((a + b)[i] == a[i]);
        } else {
            assert((a + b)[i] == b[i - a.len()]);
        }
    }
}

proof fn lemma_digits_numeral(s: Seq<char>)
    requires
        s.len() > 0,
        text::all_digits(s),
    ensures
        numeral(s),
{
    assert(text::is_digit(s[0]));
}

proof fn lemma_es_numeral(negative: bool, digits: Seq<char>, point: int)
    requires
        digits.len() > 0,
        text::all_digits(digits),
    ensures
        numeral(es_text(negative, digits, point)),
{
    reveal_strlit("-");
    reveal_strlit(".");
    reveal_strlit("0.");
    reveal_strlit("e+");
    reveal_strlit("e-");
    let none = Seq::<char>::empty();
    let sign = if negative {
        "-"@
    } else {
        none
    };
    let k = digits.len();
    lemma_digits_numeral(digits);
    assert(all_numeric(sign));
    if k <= point <= 21 {
        let z = zeros((point - k) as nat);
        assert(all_numeric(z));
        lemma_numeric_concat(sign, digits);
        lemma_numeric_concat(sign + digits, z);
        let s = sign + digits + z;
        assert(s[0] == if negative { '-' } else { digits[0] });
    } else if 0 < point <= 21 {
        let (p, q) = (digits.take(point), digits.skip(point));
        assert(all_numeric(p) && all_numeric(q));
        assert(all_numeric("."@));
        lemma_numeric_concat(sign, p);
        lemma_numeric_concat(sign + p, "."@);
        lemma_numeric_concat(sign + p + "."@, q);
        let s = sign + p + "."@ + q;
        assert(s[0] == if negative { '-' } else { digits[0] });
    } else if -6 < point <= 0 {
        let z = zeros((-point) as nat);
        assert(all_numeric(z));
        assert(all_numeric("0."@));
        lemma_numeric_concat(sign, "0."@);
        lemma_numeric_concat(sign + "0."@, z);
        lemma_numeric_concat(sign + "0."@ + z, digits);
        let s = sign + "0."@ + z + digits;
        assert(s[0] == if negative { '-' } else { '0' });
    } else {
        let mantissa = if k <= 1 {
            digits
        } else {
            digits.take(1) + "."@ + digits.skip(1)
        };
        if k > 1 {
            let (p, q) = (digits.take(1), digits.skip(1));
            assert(all_numeric(p) && all_numeric(q));
            assert(all_numeric("."@));
            lemma_numeric_concat(p, "."@);
            lemma_numeric_concat(p + "."@, q);
        }
        assert(mantissa[0] == digits[0]);
        let e = point - 1;
        let n = if e >= 0 {
            e as nat
        } else {
            (-e) as nat
        };
        let mark = if e >= 0 {
            "e+"@
        } else {
            "e-"@
        };
        text::a_decimal_reads_back(n);
        lemma_digits_numeral(text::decimal(n));
        assert(all_numeric(mark));
        lemma_numeric_concat(sign, mantissa);
        lemma_numeric_concat(sign + mantissa, mark);
        lemma_numeric_concat(sign + mantissa + mark, text::decimal(n));
        let s = sign + mantissa + mark + text::decimal(n);
        assert(s[0] == if negative { '-' } else { digits[0] });
    }
}

proof fn lemma_number_numeral(v: JsonView)
    requires
        is_number(v),
        canonical(v) is Ok,
    ensures
        numeral(canonical(v)->Ok_0),
{
    match v {
        JsonView::Whole(n) => {
            text::a_decimal_reads_back(n as nat);
            lemma_digits_numeral(text::decimal(n as nat));
        },
        JsonView::Negative(n) => {
            if n < 0 {
                text::a_decimal_reads_back((-n) as nat);
                let d = text::decimal((-n) as nat);
                lemma_digits_numeral(d);
                lemma_numeric_concat(seq!['-'], d);
            } else {
                text::a_decimal_reads_back(n as nat);
                lemma_digits_numeral(text::decimal(n as nat));
            }
        },
        JsonView::Real { bits, text } => {
            reveal_strlit("0");
            let p = number_parts(text)->0;
            if p.digits.len() > 0 {
                lemma_parts_digits(text);
                lemma_es_numeral(p.negative, p.digits, p.point);
            }
        },
        _ => {},
    }
}

proof fn lemma_parts_digits(s: Seq<char>)
    requires
        number_parts(s) is Some,
    ensures
        text::all_digits(number_parts(s)->0.digits),
{
    let at = text::next_at(s, 'e', 0);
    let mantissa = s.take(at);
    let negative = mantissa.len() > 0 && mantissa[0] == '-';
    let body = if negative {
        mantissa.skip(1)
    } else {
        mantissa
    };
    let all = mantissa_digits(body);
    let rest = text::trimmed_start(all, '0');
    let digits = text::trimmed_end(rest, '0');
    text::trimming_takes_the_runs_away(all, '0');
    text::trimming_takes_the_runs_away(rest, '0');
    assert forall|i: int| 0 <= i < digits.len() implies text::is_digit(#[trigger] digits[i]) by {
        assert(digits[i] == rest[i]);
        assert(rest[i] == all[i + (all.len() - rest.len())]);
    }
}

spec fn delimited(x: Seq<char>) -> bool {
    x.len() == 0 || x[0] == ',' || x[0] == ']' || x[0] == '}'
}

proof fn lemma_numeral_prefix(s: Seq<char>, t: Seq<char>, x: Seq<char>, y: Seq<char>)
    requires
        numeral(s),
        numeral(t),
        delimited(x),
        delimited(y),
        s + x == t + y,
    ensures
        s == t,
        x == y,
{
    let (l, r) = (s + x, t + y);
    if s.len() < t.len() {
        assert(l[s.len() as int] == x[0]);
        assert(r[s.len() as int] == t[s.len() as int]);
        assert(numeric(t[s.len() as int]));
    }
    if t.len() < s.len() {
        assert(r[t.len() as int] == y[0]);
        assert(l[t.len() as int] == s[t.len() as int]);
        assert(numeric(s[t.len() as int]));
    }
    assert(l.take(s.len() as int) =~= s);
    assert(r.take(t.len() as int) =~= t);
    assert(l.skip(s.len() as int) =~= x);
    assert(r.skip(t.len() as int) =~= y);
}

/// The first character of a canonical text tells its kind.
spec fn kind_of(v: JsonView) -> int {
    match v {
        JsonView::Null => 0,
        JsonView::Bool(b) => if b {
            1
        } else {
            2
        },
        JsonView::Text(_) => 4,
        JsonView::List(_) => 5,
        JsonView::Object(_) => 6,
        _ => 3,
    }
}

spec fn kind_char(c: char) -> int {
    if c == 'n' {
        0
    } else if c == 't' {
        1
    } else if c == 'f' {
        2
    } else if text::is_digit(c) || c == '-' {
        3
    } else if c == '"' {
        4
    } else if c == '[' {
        5
    } else if c == '{' {
        6
    } else {
        7
    }
}

proof fn lemma_kind(v: JsonView)
    requires
        canonical(v) is Ok,
    ensures
        canonical(v)->Ok_0.len() > 0,
        kind_char(canonical(v)->Ok_0[0]) == kind_of(v),
{
    reveal_strlit("null");
    reveal_strlit("true");
    reveal_strlit("false");
    reveal_strlit("[");
    reveal_strlit("{");
    match v {
        JsonView::Text(s) => {
            json::a_plain_text_is_written_as_it_is(s);
        },
        JsonView::Whole(_) | JsonView::Negative(_) | JsonView::Real { .. } => {
            lemma_number_numeral(v);
        },
        _ => {},
    }
}

spec fn tail_text(p: Seq<JsonView>, i: int) -> Seq<char>
    decreases p.len() - i,
{
    if i < 0 || i >= p.len() {
        Seq::<char>::empty()
    } else if i == p.len() - 1 {
        canonical(p[i])->Ok_0
    } else {
        canonical(p[i])->Ok_0 + (seq![','] + tail_text(p, i + 1))
    }
}

spec fn all_canonical(p: Seq<JsonView>) -> bool {
    forall|i: int| 0 <= i < p.len() ==> canonical(#[trigger] p[i]) is Ok
}

proof fn lemma_tail_grows(p: Seq<JsonView>, i: int)
    requires
        p.len() > 1,
        0 <= i < p.len() - 1,
    ensures
        tail_text(p, i) == tail_text(p.subrange(0, p.len() - 1), i) + seq![','] + canonical(
            p[p.len() - 1],
        )->Ok_0,
    decreases p.len() - i,
{
    let q = p.subrange(0, p.len() - 1);
    let last = canonical(p[p.len() - 1])->Ok_0;
    assert(q[i] == p[i]);
    let c = canonical(p[i])->Ok_0;
    let comma = seq![','];
    if i == p.len() - 2 {
        assert(tail_text(p, i + 1) == last);
        assert(tail_text(p, i) =~= tail_text(q, i) + comma + last);
    } else {
        lemma_tail_grows(p, i + 1);
        assert(tail_text(p, i) =~= tail_text(q, i) + comma + last);
    }
}

proof fn lemma_items_text(p: Seq<JsonView>)
    ensures
        canonical_items(p) is Ok <==> all_canonical(p),
        canonical_items(p) is Ok ==> canonical_items(p)->Ok_0 == tail_text(p, 0),
    decreases p.len(),
{
    reveal_strlit(",");
    if p.len() > 0 {
        let q = p.subrange(0, p.len() - 1);
        lemma_items_text(q);
        assert forall|i: int| 0 <= i < q.len() implies #[trigger] q[i] == p[i] by {}
        if canonical_items(p) is Ok {
            assert forall|i: int| 0 <= i < p.len() implies canonical(#[trigger] p[i]) is Ok by {
                if i < q.len() {
                    assert(q[i] == p[i]);
                }
            }
        }
        if all_canonical(p) {
            assert forall|i: int| 0 <= i < q.len() implies canonical(#[trigger] q[i]) is Ok by {
                assert(q[i] == p[i]);
            }
            assert(canonical(p[p.len() - 1]) is Ok);
            if p.len() > 1 {
                lemma_tail_grows(p, 0);
                assert(","@ =~= seq![',']);
            }
        }
    }
}

spec fn tail_members(o: Seq<MemberText>, i: int) -> Seq<char>
    decreases o.len() - i,
{
    if i < 0 || i >= o.len() {
        Seq::<char>::empty()
    } else if i == o.len() - 1 {
        json::json_string(o[i].0) + (seq![':'] + o[i].1)
    } else {
        json::json_string(o[i].0) + (seq![':'] + (o[i].1 + (seq![','] + tail_members(o, i + 1))))
    }
}

proof fn lemma_tail_members_grow(o: Seq<MemberText>, i: int)
    requires
        o.len() > 1,
        0 <= i < o.len() - 1,
    ensures
        tail_members(o, i) == tail_members(o.drop_last(), i) + seq![','] + (json::json_string(
            o.last().0,
        ) + seq![':'] + o.last().1),
    decreases o.len() - i,
{
    let q = o.drop_last();
    let n = o.len() - 1;
    assert(q[i] == o[i]);
    assert(o[n] == o.last());
    let last = json::json_string(o.last().0) + seq![':'] + o.last().1;
    assert(tail_members(o, n) =~= last);
    if i < o.len() - 2 {
        lemma_tail_members_grow(o, i + 1);
    }
    assert(tail_members(o, i) =~= tail_members(q, i) + seq![','] + last);
}

proof fn lemma_members_text(o: Seq<MemberText>)
    ensures
        joined_members(o) == tail_members(o, 0),
    decreases o.len(),
{
    reveal_strlit(",");
    reveal_strlit(":");
    assert(","@ =~= seq![',']);
    assert(":"@ =~= seq![':']);
    if o.len() == 0 {
        assert(joined_members(o) =~= tail_members(o, 0));
    } else if o.len() == 1 {
        assert(joined_members(o) =~= tail_members(o, 0));
    } else {
        lemma_members_text(o.drop_last());
        lemma_tail_members_grow(o, 0);
    }
}

/// Whether each text of some members is the canonical text of one of some values.
spec fn texts_of(o: Seq<MemberText>, x: Seq<(Seq<char>, JsonView)>) -> bool {
    forall|i: int| 0 <= i < o.len() ==> #[trigger] text_found(o, i, x)
}

spec fn text_found(o: Seq<MemberText>, i: int, x: Seq<(Seq<char>, JsonView)>) -> bool {
    exists|k: int| #[trigger] text_at(o, i, x, k)
}

spec fn text_at(o: Seq<MemberText>, i: int, x: Seq<(Seq<char>, JsonView)>, k: int) -> bool {
    0 <= k < x.len() && canonical(x[k].1) is Ok && o[i] == (x[k].0, canonical(x[k].1)->Ok_0)
}

proof fn lemma_canonical_prefix(a: JsonView, b: JsonView, x: Seq<char>, y: Seq<char>)
    requires
        canonical(a) is Ok,
        canonical(b) is Ok,
        delimited(x),
        delimited(y),
        canonical(a)->Ok_0 + x == canonical(b)->Ok_0 + y,
    ensures
        canonical(a) == canonical(b),
        x == y,
    decreases a, 0int,
{
    let (s, t) = (canonical(a)->Ok_0, canonical(b)->Ok_0);
    let (l, r) = (s + x, t + y);
    lemma_kind(a);
    lemma_kind(b);
    assert(l[0] == s[0] && r[0] == t[0]);
    assert(kind_of(a) == kind_of(b));
    match (a, b) {
        (JsonView::Text(p), JsonView::Text(q)) => {
            json::lemma_string_prefix(p, q, x, y);
        },
        (JsonView::List(p), JsonView::List(q)) => {
            reveal_strlit("[");
            reveal_strlit("]");
            lemma_items_text(p);
            lemma_items_text(q);
            let end = seq![']'];
            assert("]"@ =~= end);
            assert(l.skip(1) =~= tail_text(p, 0) + (end + x));
            assert(r.skip(1) =~= tail_text(q, 0) + (end + y));
            lemma_items_prefix(p, q, 0, x, y);
        },
        (JsonView::Object(p), JsonView::Object(q)) => {
            reveal_strlit("{");
            reveal_strlit("}");
            let (o, u) = (
                in_name_order(canonical_members(p)->Ok_0),
                in_name_order(canonical_members(q)->Ok_0),
            );
            lemma_members_text(o);
            lemma_members_text(u);
            lemma_texts_of(p);
            lemma_texts_of(q);
            let end = seq!['}'];
            assert("}"@ =~= end);
            assert(l.skip(1) =~= tail_members(o, 0) + (end + x));
            assert(r.skip(1) =~= tail_members(u, 0) + (end + y));
            lemma_members_prefix(p, q, o, u, 0, x, y);
            assert(o =~= u);
        },
        _ => {
            if is_number(a) {
                lemma_number_numeral(a);
                lemma_number_numeral(b);
                lemma_numeral_prefix(s, t, x, y);
            } else {
                assert(s == t);
                assert(l.skip(s.len() as int) =~= x);
                assert(r.skip(t.len() as int) =~= y);
            }
        },
    }
}

proof fn lemma_texts_of(x: Seq<(Seq<char>, JsonView)>)
    requires
        canonical_members(x) is Ok,
    ensures
        texts_of(in_name_order(canonical_members(x)->Ok_0), x),
{
    let t = canonical_members(x)->Ok_0;
    let o = in_name_order(t);
    lemma_member_texts(x);
    lemma_in_name_order(t);
    assert forall|i: int| 0 <= i < o.len() implies #[trigger] text_found(o, i, x) by {
        assert(o.contains(o[i]));
        assert(t.contains(o[i]));
        let k = choose|k: int| 0 <= k < t.len() && t[k] == o[i];
        assert(canonical_members(x)->Ok_0[k] == (x[k].0, canonical(x[k].1)->Ok_0));
        assert(canonical(x[k].1) is Ok);
        assert(text_at(o, i, x, k));
    }
}

proof fn lemma_items_prefix(
    p: Seq<JsonView>,
    q: Seq<JsonView>,
    i: int,
    x: Seq<char>,
    y: Seq<char>,
)
    requires
        all_canonical(p),
        all_canonical(q),
        0 <= i <= p.len(),
        i <= q.len(),
        i > 0 ==> i < p.len() && i < q.len(),
        tail_text(p, i) + (seq![']'] + x) == tail_text(q, i) + (seq![']'] + y),
    ensures
        p.len() == q.len(),
        forall|k: int| i <= k < p.len() ==> canonical(#[trigger] p[k]) == canonical(q[k]),
        tail_text(p, i) == tail_text(q, i),
        x == y,
    decreases p, p.len() - i,
{
    let end = seq![']'];
    let comma = seq![','];
    let (l, r) = (tail_text(p, i) + (end + x), tail_text(q, i) + (end + y));
    if i < p.len() {
        lemma_kind(p[i]);
        assert(tail_text(p, i)[0] == canonical(p[i])->Ok_0[0]);
        assert(l[0] == canonical(p[i])->Ok_0[0]);
    } else {
        assert(l[0] == ']');
    }
    if i < q.len() {
        lemma_kind(q[i]);
        assert(tail_text(q, i)[0] == canonical(q[i])->Ok_0[0]);
        assert(r[0] == canonical(q[i])->Ok_0[0]);
    } else {
        assert(r[0] == ']');
    }
    assert(l[0] == r[0]);
    if i < p.len() && i < q.len() {
        let (s, t) = (canonical(p[i])->Ok_0, canonical(q[i])->Ok_0);
        let x1 = if i == p.len() - 1 {
            end + x
        } else {
            comma + (tail_text(p, i + 1) + (end + x))
        };
        let y1 = if i == q.len() - 1 {
            end + y
        } else {
            comma + (tail_text(q, i + 1) + (end + y))
        };
        assert(l =~= s + x1);
        assert(r =~= t + y1);
        lemma_canonical_prefix(p[i], q[i], x1, y1);
        assert(x1[0] == y1[0]);
        if i == p.len() - 1 {
            assert(x1.skip(1) =~= x);
            assert(y1.skip(1) =~= y);
        } else {
            assert(x1.skip(1) =~= tail_text(p, i + 1) + (end + x));
            assert(y1.skip(1) =~= tail_text(q, i + 1) + (end + y));
            lemma_items_prefix(p, q, i + 1, x, y);
            assert forall|k: int| i <= k < p.len() implies canonical(#[trigger] p[k]) == canonical(
                q[k],
            ) by {
                if k > i {
                    assert(canonical(p[k]) == canonical(q[k]));
                }
            }
        }
    } else {
        assert(i == 0 && p.len() == 0 && q.len() == 0);
        assert((end + x).skip(1) =~= x);
        assert((end + y).skip(1) =~= y);
        assert(l =~= end + x);
        assert(r =~= end + y);
    }
}

spec fn rest_of_members(o: Seq<MemberText>, i: int, x: Seq<char>) -> Seq<char> {
    if i == o.len() - 1 {
        seq!['}'] + x
    } else {
        seq![','] + (tail_members(o, i + 1) + (seq!['}'] + x))
    }
}

proof fn lemma_rest_of_members(o: Seq<MemberText>, i: int, x: Seq<char>)
    requires
        0 <= i < o.len(),
    ensures
        tail_members(o, i) + (seq!['}'] + x) == json::json_string(o[i].0) + (seq![':'] + (o[i].1
            + rest_of_members(o, i, x))),
        (tail_members(o, i) + (seq!['}'] + x))[0] == '"',
        delimited(rest_of_members(o, i, x)),
        rest_of_members(o, i, x).len() > 0,
        i == o.len() - 1 ==> rest_of_members(o, i, x)[0] == '}' && rest_of_members(o, i, x).skip(1)
            == x,
        i < o.len() - 1 ==> rest_of_members(o, i, x)[0] == ',' && rest_of_members(o, i, x).skip(1)
            == tail_members(o, i + 1) + (seq!['}'] + x),
        (seq![':'] + (o[i].1 + rest_of_members(o, i, x))).skip(1) == o[i].1 + rest_of_members(
            o,
            i,
            x,
        ),
{
    json::a_plain_text_is_written_as_it_is(o[i].0);
    let r = rest_of_members(o, i, x);
    assert(tail_members(o, i) + (seq!['}'] + x) =~= json::json_string(o[i].0) + (seq![':'] + (o[i].1
        + r)));
    if i == o.len() - 1 {
        assert(r.skip(1) =~= x);
    } else {
        assert(r.skip(1) =~= tail_members(o, i + 1) + (seq!['}'] + x));
    }
    assert((seq![':'] + (o[i].1 + r)).skip(1) =~= o[i].1 + r);
}

proof fn lemma_members_prefix(
    p: Seq<(Seq<char>, JsonView)>,
    q: Seq<(Seq<char>, JsonView)>,
    o: Seq<MemberText>,
    u: Seq<MemberText>,
    i: int,
    x: Seq<char>,
    y: Seq<char>,
)
    requires
        texts_of(o, p),
        texts_of(u, q),
        0 <= i <= o.len(),
        i <= u.len(),
        i > 0 ==> i < o.len() && i < u.len(),
        tail_members(o, i) + (seq!['}'] + x) == tail_members(u, i) + (seq!['}'] + y),
    ensures
        o.len() == u.len(),
        forall|k: int| i <= k < o.len() ==> #[trigger] o[k] == u[k],
        x == y,
    decreases p, o.len() - i,
{
    let end = seq!['}'];
    let (l, r) = (tail_members(o, i) + (end + x), tail_members(u, i) + (end + y));
    if i < o.len() && i < u.len() {
        lemma_rest_of_members(o, i, x);
        lemma_rest_of_members(u, i, y);
        let (x1, y1) = (rest_of_members(o, i, x), rest_of_members(u, i, y));
        lemma_member_prefix(p, q, o, u, i, x1, y1);
        if i < o.len() - 1 {
            lemma_members_prefix(p, q, o, u, i + 1, x, y);
        }
    } else {
        if i < o.len() {
            lemma_rest_of_members(o, i, x);
            assert(r =~= end + y);
        }
        if i < u.len() {
            lemma_rest_of_members(u, i, y);
            assert(l =~= end + x);
        }
        assert((end + x).skip(1) =~= x);
        assert((end + y).skip(1) =~= y);
        if i == o.len() {
            assert(l =~= end + x);
        }
        if i == u.len() {
            assert(r =~= end + y);
        }
    }
}

proof fn lemma_member_prefix(
    p: Seq<(Seq<char>, JsonView)>,
    q: Seq<(Seq<char>, JsonView)>,
    o: Seq<MemberText>,
    u: Seq<MemberText>,
    i: int,
    x: Seq<char>,
    y: Seq<char>,
)
    requires
        texts_of(o, p),
        texts_of(u, q),
        0 <= i < o.len(),
        i < u.len(),
        delimited(x),
        delimited(y),
        json::json_string(o[i].0) + (seq![':'] + (o[i].1 + x)) == json::json_string(u[i].0) + (
        seq![':'] + (u[i].1 + y)),
    ensures
        o[i] == u[i],
        x == y,
    decreases p, 0int,
{
    let colon = seq![':'];
    json::lemma_string_prefix(o[i].0, u[i].0, colon + (o[i].1 + x), colon + (u[i].1 + y));
    assert((colon + (o[i].1 + x)).skip(1) =~= o[i].1 + x);
    assert((colon + (u[i].1 + y)).skip(1) =~= u[i].1 + y);
    assert(text_found(o, i, p) && text_found(u, i, q));
    let k = choose|k: int| #[trigger] text_at(o, i, p, k);
    let m = choose|m: int| #[trigger] text_at(u, i, q, m);
    assert(text_at(o, i, p, k) && text_at(u, i, q, m));
    lemma_canonical_prefix(p[k].1, q[m].1, x, y);
}

/// A canonical text stands for one value, as far as it is no list, object or number: values with one
/// text are of one kind, and nulls, booleans and texts are equal. The numbers are one kind.
pub proof fn a_canonical_text_stands_for_one_value(a: JsonView, b: JsonView)
    requires
        canonical(a) is Ok,
        canonical(a) == canonical(b),
    ensures
        a is Null <==> b is Null,
        a is Bool <==> b is Bool,
        a is Text <==> b is Text,
        a is List <==> b is List,
        a is Object <==> b is Object,
        is_number(a) <==> is_number(b),
        a is Bool ==> a->Bool_0 == b->Bool_0,
        a is Text ==> a->Text_0 == b->Text_0,
{
    lemma_kind(a);
    lemma_kind(b);
    if a is Text && b is Text {
        json::a_written_string_stands_for_one_text(a->Text_0, b->Text_0);
    }
}

/// The canonical text of a list stands for its items: lists with one text are equally long, and their
/// items have the same texts, each in its place. A list has a text exactly where every item has.
pub proof fn a_canonical_list_stands_for_its_items(p: Seq<JsonView>, q: Seq<JsonView>)
    ensures
        canonical(JsonView::List(p)) is Ok <==> forall|i: int|
            0 <= i < p.len() ==> canonical(#[trigger] p[i]) is Ok,
        canonical(JsonView::List(p)) is Ok && canonical(JsonView::List(p)) == canonical(
            JsonView::List(q),
        ) ==> p.len() == q.len() && forall|i: int|
            0 <= i < p.len() ==> canonical(#[trigger] p[i]) == canonical(q[i]),
{
    lemma_items_text(p);
    lemma_items_text(q);
    if canonical(JsonView::List(p)) is Ok && canonical(JsonView::List(p)) == canonical(
        JsonView::List(q),
    ) {
        reveal_strlit("[");
        reveal_strlit("]");
        let none = Seq::<char>::empty();
        let end = seq![']'];
        assert("]"@ =~= end);
        let (s, t) = (canonical(JsonView::List(p))->Ok_0, canonical(JsonView::List(q))->Ok_0);
        assert(s.skip(1) =~= tail_text(p, 0) + (end + none));
        assert(t.skip(1) =~= tail_text(q, 0) + (end + none));
        lemma_items_prefix(p, q, 0, none, none);
    }
}

/// The canonical text of an object stands for its members: where two objects have one text, each member
/// of one has a member of the same name in the other, and their values have the same texts. An object
/// has a text exactly where every value has.
pub proof fn a_canonical_object_stands_for_its_members(
    p: Seq<(Seq<char>, JsonView)>,
    q: Seq<(Seq<char>, JsonView)>,
)
    ensures
        canonical(JsonView::Object(p)) is Ok <==> forall|i: int|
            0 <= i < p.len() ==> canonical((#[trigger] p[i]).1) is Ok,
        canonical(JsonView::Object(p)) is Ok && canonical(JsonView::Object(p)) == canonical(
            JsonView::Object(q),
        ) ==> p.len() == q.len() && forall|i: int|
            0 <= i < p.len() ==> exists|j: int|
                0 <= j < q.len() && (#[trigger] q[j]).0 == (#[trigger] p[i]).0 && canonical(q[j].1)
                    == canonical(p[i].1),
{
    lemma_member_texts(p);
    lemma_member_texts(q);
    if canonical(JsonView::Object(p)) is Ok && canonical(JsonView::Object(p)) == canonical(
        JsonView::Object(q),
    ) {
        reveal_strlit("{");
        reveal_strlit("}");
        let none = Seq::<char>::empty();
        let end = seq!['}'];
        assert("}"@ =~= end);
        let (a, b) = (canonical_members(p)->Ok_0, canonical_members(q)->Ok_0);
        let (o, u) = (in_name_order(a), in_name_order(b));
        lemma_members_text(o);
        lemma_members_text(u);
        lemma_texts_of(p);
        lemma_texts_of(q);
        let (s, t) = (canonical(JsonView::Object(p))->Ok_0, canonical(JsonView::Object(q))->Ok_0);
        assert(s.skip(1) =~= tail_members(o, 0) + (end + none));
        assert(t.skip(1) =~= tail_members(u, 0) + (end + none));
        lemma_members_prefix(p, q, o, u, 0, none, none);
        assert(o =~= u);
        lemma_in_name_order(a);
        lemma_in_name_order(b);
        assert forall|i: int| 0 <= i < p.len() implies exists|j: int|
            0 <= j < q.len() && (#[trigger] q[j]).0 == (#[trigger] p[i]).0 && canonical(q[j].1)
                == canonical(p[i].1) by {
            assert(canonical_members(p)->Ok_0[i] == (p[i].0, canonical(p[i].1)->Ok_0));
            assert(a.contains(a[i]));
            assert(o.contains(a[i]));
            assert(b.contains(a[i]));
            let j = choose|j: int| 0 <= j < b.len() && b[j] == a[i];
            assert(canonical_members(q)->Ok_0[j] == (q[j].0, canonical(q[j].1)->Ok_0));
            assert(canonical(p[i].1) is Ok);
            assert(canonical(q[j].1) is Ok);
            assert(q[j].0 == p[i].0);
        }
    }
}

/// Whole numbers are told apart by their canonical texts, however they were read, and are written in
/// decimal.
pub proof fn canonical_whole_numbers_are_told_apart(m: u64, n: u64, i: i64, j: i64)
    ensures
        canonical(JsonView::Whole(m)) == Ok::<Seq<char>, ErrorView>(text::decimal(m as nat)),
        canonical(JsonView::Whole(m)) == canonical(JsonView::Whole(n)) <==> m == n,
        canonical(JsonView::Negative(i)) == canonical(JsonView::Negative(j)) <==> i == j,
        canonical(JsonView::Whole(m)) == canonical(JsonView::Negative(i)) <==> m == i,
{
    if canonical(JsonView::Whole(m)) == canonical(JsonView::Whole(n)) {
        text::decimals_are_told_apart(m as int, n as int);
    }
    if canonical(JsonView::Negative(i)) == canonical(JsonView::Negative(j)) {
        text::decimals_are_told_apart(i as int, j as int);
    }
    if canonical(JsonView::Whole(m)) == canonical(JsonView::Negative(i)) {
        text::decimals_are_told_apart(m as int, i as int);
    }
}

/// Members are written in the order of their names, by UTF-16 code units: of two names that first
/// differ in some place, the one with the smaller unit there comes first, and one that is the beginning
/// of the other comes before it. It is an order: no name comes before itself, and of two different
/// names one comes first.
pub proof fn names_are_ordered_by_code_units(a: Seq<char>, b: Seq<char>, c: Seq<char>, n: int)
    ensures
        !name_lt(a, a),
        a != b ==> (name_lt(a, b) <==> !name_lt(b, a)),
        name_lt(a, b) && name_lt(b, c) ==> name_lt(a, c),
        0 <= n < utf16(a).len() && n < utf16(b).len() && (forall|i: int|
            0 <= i < n ==> utf16(a)[i] == utf16(b)[i]) && utf16(a)[n] < utf16(b)[n] ==> name_lt(a, b),
        utf16(a).len() < utf16(b).len() && (forall|i: int|
            0 <= i < utf16(a).len() ==> utf16(a)[i] == utf16(b)[i]) ==> name_lt(a, b),
{
    lemma_name_order(a, b, c);
    lemma_name_order(b, a, b);
    if name_lt(a, b) && name_lt(b, a) {
        lemma_name_order(a, b, a);
    }
    lemma_units_decided(utf16(a), utf16(b), n);
}

proof fn lemma_units_decided(a: Seq<int>, b: Seq<int>, n: int)
    ensures
        0 <= n < a.len() && n < b.len() && (forall|i: int| 0 <= i < n ==> a[i] == b[i]) && a[n]
            < b[n] ==> units_lt(a, b),
        a.len() < b.len() && (forall|i: int| 0 <= i < a.len() ==> a[i] == b[i]) ==> units_lt(a, b),
    decreases a.len(),
{
    if a.len() > 0 && b.len() > 0 && a[0] == b[0] {
        let (p, q) = (a.skip(1), b.skip(1));
        lemma_units_decided(p, q, n - 1);
        if 0 < n < a.len() && n < b.len() && (forall|i: int| 0 <= i < n ==> a[i] == b[i]) && a[n]
            < b[n] {
            assert forall|i: int| 0 <= i < n - 1 implies p[i] == q[i] by {
                assert(a[i + 1] == b[i + 1]);
            }
            assert(p[n - 1] < q[n - 1]);
        }
        if a.len() < b.len() && (forall|i: int| 0 <= i < a.len() ==> a[i] == b[i]) {
            assert forall|i: int| 0 <= i < p.len() implies p[i] == q[i] by {
                assert(a[i + 1] == b[i + 1]);
            }
        }
    } else if a.len() > 0 && b.len() > 0 {
        if n > 0 && n < a.len() && n < b.len() && (forall|i: int| 0 <= i < n ==> a[i] == b[i]) {
            assert(a[0] == b[0]);
        }
        if a.len() < b.len() && (forall|i: int| 0 <= i < a.len() ==> a[i] == b[i]) {
            assert(a[0] == b[0]);
        }
    }
}

/// A number is a hazard exactly where it is a whole one beyond 2^53 - 1 in size; a list or an object has
/// the hazards of what it holds, each under its own place.
pub proof fn hazards_are_the_large_whole_numbers(
    n: u64,
    i: i64,
    at: Seq<char>,
    items: Seq<JsonView>,
    members: Seq<(Seq<char>, JsonView)>,
    v: JsonView,
    name: Seq<char>,
)
    ensures
        hazards(JsonView::Whole(n), at).len() > 0 <==> n > 9007199254740991,
        hazards(JsonView::Negative(i), at).len() > 0 <==> i > 9007199254740991 || i
            < -9007199254740991,
        n > 9007199254740991 ==> hazards(JsonView::Whole(n), at) == seq![
            (at, text::decimal(n as nat)),
        ],
        v is Null || v is Bool || v is Text || v is Real ==> hazards(v, at).len() == 0,
        hazards(JsonView::List(items.push(v)), at) == hazards(JsonView::List(items), at) + hazards(
            v,
            at + "/"@ + text::decimal(items.len()),
        ),
        hazards(JsonView::Object(members.push((name, v))), at) == hazards(
            JsonView::Object(members),
            at,
        ) + hazards(v, at + "/"@ + pointer_token(name)),
        hazards(JsonView::List(seq![]), at).len() == 0,
        hazards(JsonView::Object(seq![]), at).len() == 0,
{
    let more = items.push(v);
    assert(more.subrange(0, more.len() - 1) =~= items);
    let wider = members.push((name, v));
    assert(wider.subrange(0, wider.len() - 1) =~= members);
}

// -- What a canonical number is worth -----------------------------------------------------------------------

proof fn lemma_found_at(s: Seq<char>, c: char, n: int)
    requires
        0 <= n <= s.len(),
        n < s.len() ==> s[n] == c,
        forall|i: int| 0 <= i < n ==> #[trigger] s[i] != c,
    ensures
        text::next_at(s, c, 0) == n,
{
    text::a_character_is_found_where_it_first_stands(s, c, 0);
    let m = text::next_at(s, c, 0);
    if m < n {
        assert(s[m] != c);
    }
}

proof fn lemma_trim_front_zeros(n: nat, d: Seq<char>)
    requires
        d.len() > 0,
        d[0] != '0',
    ensures
        text::trimmed_start(zeros(n) + d, '0') == d,
    decreases n,
{
    let s = zeros(n) + d;
    if n == 0 {
        assert(s =~= d);
    } else {
        assert(s[0] == '0');
        assert(s.skip(1) =~= zeros((n - 1) as nat) + d);
        lemma_trim_front_zeros((n - 1) as nat, d);
    }
}

proof fn lemma_trim_back_zeros(d: Seq<char>, n: nat)
    requires
        d.len() > 0,
        d.last() != '0',
    ensures
        text::trimmed_end(d + zeros(n), '0') == d,
    decreases n,
{
    let s = d + zeros(n);
    if n == 0 {
        assert(s =~= d);
    } else {
        assert(s.last() == '0');
        assert(s.drop_last() =~= d + zeros((n - 1) as nat));
        lemma_trim_back_zeros(d, (n - 1) as nat);
    }
}

/// Whether digits are those of a number: some, neither beginning nor ending with a zero.
pub open spec fn trimmed_digits(digits: Seq<char>) -> bool {
    0 < digits.len() <= 900 && text::all_digits(digits) && digits[0] != '0' && digits.last() != '0'
}

/// The parts of a text that is a sign, a mantissa without an exponent mark, and `exponent`, where the
/// mantissa has `whole` in front of its point and `fraction` behind it.
proof fn lemma_parts(
    s: Seq<char>,
    negative: bool,
    whole: Seq<char>,
    dotted: bool,
    fraction: Seq<char>,
    mark: Seq<char>,
    exponent: int,
)
    requires
        whole.len() > 0,
        text::all_digits(whole),
        text::all_digits(fraction),
        !dotted ==> fraction.len() == 0,
        s.len() <= 1000,
        s == (if negative {
            seq!['-']
        } else {
            Seq::<char>::empty()
        }) + whole + (if dotted {
            seq!['.'] + fraction
        } else {
            Seq::<char>::empty()
        }) + mark,
        mark.len() == 0 ==> exponent == 0,
        mark.len() > 0 ==> mark[0] == 'e' && exponent_of(mark.skip(1)) == Some(exponent),
    ensures
        ({
            let all = whole + fraction;
            let rest = text::trimmed_start(all, '0');
            number_parts(s) == Some(
                PartsView {
                    negative,
                    digits: text::trimmed_end(rest, '0'),
                    point: whole.len() - (all.len() - rest.len()) + exponent,
                },
            )
        }),
{
    let none = Seq::<char>::empty();
    let sign = if negative {
        seq!['-']
    } else {
        none
    };
    let tail = if dotted {
        seq!['.'] + fraction
    } else {
        none
    };
    let m = sign + whole + tail;
    let n = m.len() as int;
    assert(s =~= m + mark);
    assert forall|i: int| 0 <= i < n implies #[trigger] s[i] != 'e' by {
        assert(s[i] == m[i]);
        if i < sign.len() {
        } else if i < sign.len() + whole.len() {
            assert(m[i] == whole[i - sign.len()]);
            assert(text::is_digit(whole[i - sign.len()]));
        } else {
            let j = i - sign.len() - whole.len();
            assert(m[i] == tail[j]);
            if j > 0 {
                assert(tail[j] == fraction[j - 1]);
                assert(text::is_digit(fraction[j - 1]));
            }
        }
    }
    if mark.len() > 0 {
        assert(s[n] == mark[0]);
        assert(s.skip(n + 1) =~= mark.skip(1));
    }
    lemma_found_at(s, 'e', n);
    assert(s.take(n) =~= m);
    assert(text::is_digit(whole[0]));
    assert(m[0] == if negative { '-' } else { whole[0] });
    let body = if negative {
        m.skip(1)
    } else {
        m
    };
    assert(body =~= whole + tail);
    let k = whole.len() as int;
    assert forall|i: int| 0 <= i < k implies #[trigger] body[i] != '.' by {
        assert(body[i] == whole[i]);
        assert(text::is_digit(whole[i]));
    }
    if dotted {
        assert(body[k] == '.');
        assert(body.skip(k + 1) =~= fraction);
    }
    lemma_found_at(body, '.', k);
    assert(whole_part(body) =~= whole);
    assert(mantissa_digits(body) =~= whole + fraction);
    let all = whole + fraction;
    assert forall|i: int| 0 <= i < all.len() implies text::is_digit(#[trigger] all[i]) by {
        if i < k {
            assert(all[i] == whole[i]);
        } else {
            assert(all[i] == fraction[i - k]);
        }
    }
}

proof fn lemma_exponent(e: int)
    requires
        -1000000000 < e < 1000000000,
    ensures
        e >= 0 ==> exponent_of(seq!['+'] + text::decimal(e as nat)) == Some(e),
        e < 0 ==> exponent_of(seq!['-'] + text::decimal((-e) as nat)) == Some(e),
{
    let n = if e >= 0 {
        e as nat
    } else {
        (-e) as nat
    };
    text::a_decimal_reads_back(n);
    lemma_tens();
    lemma_decimal_len(n, 9);
    let d = text::decimal(n);
    assert((seq!['+'] + d).skip(1) =~= d);
    assert((seq!['-'] + d).skip(1) =~= d);
}

spec fn tens(n: nat) -> nat
    decreases n,
{
    if n == 0 {
        1
    } else {
        10 * tens((n - 1) as nat)
    }
}

proof fn lemma_tens()
    ensures
        tens(9) == 1000000000,
{
    reveal_with_fuel(tens, 11);
}

proof fn lemma_decimal_len(n: nat, k: nat)
    requires
        k > 0,
        n < tens(k),
    ensures
        text::decimal(n).len() <= k,
    decreases k,
{
    if n >= 10 {
        assert(tens(k) == 10 * tens((k - 1) as nat));
        assert(tens(0) == 1);
        lemma_decimal_len(n / 10, (k - 1) as nat);
    }
}

proof fn lemma_reads_back_whole(negative: bool, digits: Seq<char>, point: int)
    requires
        trimmed_digits(digits),
        digits.len() <= point <= 21,
    ensures
        number_parts(es_text(negative, digits, point)) == Some(
            PartsView { negative, digits, point },
        ),
{
    reveal_strlit("-");
    let none = Seq::<char>::empty();
    let s = es_text(negative, digits, point);
    let sign = if negative {
        seq!['-']
    } else {
        none
    };
    let k = digits.len();
    let z = zeros((point - k) as nat);
    let whole = digits + z;
    assert forall|i: int| 0 <= i < whole.len() implies text::is_digit(#[trigger] whole[i]) by {
        if i < k {
            assert(whole[i] == digits[i]);
        }
    }
    assert("-"@ =~= seq!['-']);
    assert(s =~= sign + whole + none + none);
    lemma_parts(s, negative, whole, false, none, none, 0);
    assert(whole + none =~= whole);
    assert(whole[0] == digits[0]);
    lemma_trim_back_zeros(digits, (point - k) as nat);
}

proof fn lemma_reads_back_dotted(negative: bool, digits: Seq<char>, point: int)
    requires
        trimmed_digits(digits),
        0 < point < digits.len() && point <= 21,
    ensures
        number_parts(es_text(negative, digits, point)) == Some(
            PartsView { negative, digits, point },
        ),
{
    reveal_strlit("-");
    reveal_strlit(".");
    let none = Seq::<char>::empty();
    let s = es_text(negative, digits, point);
    let sign = if negative {
        seq!['-']
    } else {
        none
    };
    let (p, q) = (digits.take(point), digits.skip(point));
    assert(text::all_digits(p) && text::all_digits(q));
    assert("-"@ =~= seq!['-']);
    assert("."@ =~= seq!['.']);
    assert(s =~= sign + p + (seq!['.'] + q) + none);
    lemma_parts(s, negative, p, true, q, none, 0);
    assert(p + q =~= digits);
    lemma_trim_back_zeros(digits, 0);
    assert(digits + zeros(0) =~= digits);
}

proof fn lemma_reads_back_small(negative: bool, digits: Seq<char>, point: int)
    requires
        trimmed_digits(digits),
        -6 < point <= 0,
    ensures
        number_parts(es_text(negative, digits, point)) == Some(
            PartsView { negative, digits, point },
        ),
{
    reveal_strlit("-");
    reveal_strlit("0.");
    let none = Seq::<char>::empty();
    let s = es_text(negative, digits, point);
    let sign = if negative {
        seq!['-']
    } else {
        none
    };
    let z = zeros((-point) as nat);
    let f = z + digits;
    assert forall|i: int| 0 <= i < f.len() implies text::is_digit(#[trigger] f[i]) by {
        if i >= z.len() {
            assert(f[i] == digits[i - z.len()]);
        }
    }
    let one = seq!['0'];
    assert(text::all_digits(one));
    assert("-"@ =~= seq!['-']);
    assert("0."@ =~= one + seq!['.']);
    assert(s =~= sign + one + (seq!['.'] + f) + none);
    lemma_parts(s, negative, one, true, f, none, 0);
    assert(one + f =~= zeros((1 - point) as nat) + digits);
    lemma_trim_front_zeros((1 - point) as nat, digits);
    lemma_trim_back_zeros(digits, 0);
    assert(digits + zeros(0) =~= digits);
}

spec fn exponent_mark(e: int) -> Seq<char> {
    if e >= 0 {
        seq!['e'] + (seq!['+'] + text::decimal(e as nat))
    } else {
        seq!['e'] + (seq!['-'] + text::decimal((-e) as nat))
    }
}

proof fn lemma_exponent_mark(e: int)
    requires
        -1000000000 < e < 1000000000,
    ensures
        0 < exponent_mark(e).len() <= 11,
        exponent_mark(e)[0] == 'e',
        exponent_of(exponent_mark(e).skip(1)) == Some(e),
        e >= 0 ==> exponent_mark(e) == "e+"@ + text::decimal(e as nat),
        e < 0 ==> exponent_mark(e) == "e-"@ + text::decimal((-e) as nat),
{
    reveal_strlit("e+");
    reveal_strlit("e-");
    lemma_exponent(e);
    lemma_tens();
    if e >= 0 {
        let d = text::decimal(e as nat);
        lemma_decimal_len(e as nat, 9);
        assert(exponent_mark(e).skip(1) =~= seq!['+'] + d);
        assert(exponent_mark(e) =~= "e+"@ + d);
    } else {
        let d = text::decimal((-e) as nat);
        lemma_decimal_len((-e) as nat, 9);
        assert(exponent_mark(e).skip(1) =~= seq!['-'] + d);
        assert(exponent_mark(e) =~= "e-"@ + d);
    }
}

proof fn lemma_reads_back_scaled(negative: bool, digits: Seq<char>, point: int)
    requires
        trimmed_digits(digits),
        -999999998 <= point <= 999999999,
        point > 21 || point <= -6,
    ensures
        number_parts(es_text(negative, digits, point)) == Some(
            PartsView { negative, digits, point },
        ),
{
    reveal_strlit("-");
    reveal_strlit(".");
    let none = Seq::<char>::empty();
    let s = es_text(negative, digits, point);
    let sign = if negative {
        seq!['-']
    } else {
        none
    };
    let e = point - 1;
    let mark = exponent_mark(e);
    lemma_exponent_mark(e);
    lemma_trim_back_zeros(digits, 0);
    assert(digits + zeros(0) =~= digits);
    let (p, q) = (digits.take(1), digits.skip(1));
    assert(text::all_digits(p) && text::all_digits(q));
    assert(p + q =~= digits);
    assert("-"@ =~= seq!['-']);
    assert("."@ =~= seq!['.']);
    if digits.len() <= 1 {
        assert(q =~= none);
        assert(p =~= digits);
        assert(s =~= sign + p + none + mark);
        lemma_parts(s, negative, p, false, none, mark, e);
        assert(p + none =~= digits);
    } else {
        assert(s =~= sign + p + (seq!['.'] + q) + mark);
        lemma_parts(s, negative, p, true, q, mark, e);
    }
}

/// A number that is written reads back: the text of digits and a point has that sign, those digits and
/// that point, so that it is worth what was written.
pub proof fn a_written_number_reads_back(negative: bool, digits: Seq<char>, point: int)
    requires
        trimmed_digits(digits),
        -999999998 <= point <= 999999999,
    ensures
        number_parts(es_text(negative, digits, point)) == Some(
            PartsView { negative, digits, point },
        ),
{
    if digits.len() <= point <= 21 {
        lemma_reads_back_whole(negative, digits, point);
    } else if 0 < point <= 21 {
        lemma_reads_back_dotted(negative, digits, point);
    } else if -6 < point <= 0 {
        lemma_reads_back_small(negative, digits, point);
    } else {
        lemma_reads_back_scaled(negative, digits, point);
    }
}

/// The canonical text of a double reads back as the number that its own text says, and a zero, of
/// whatever sign, is `0`. What is not finite has no text.
pub proof fn a_canonical_double_is_worth_what_was_read(bits: u64, s: Seq<char>)
    ensures
        !finite_bits(bits) ==> canonical(JsonView::Real { bits, text: s }) is Err,
        finite_bits(bits) && number_parts(s) is Some && number_parts(s)->0.digits.len() == 0
            ==> canonical(JsonView::Real { bits, text: s }) == Ok::<Seq<char>, ErrorView>("0"@),
        finite_bits(bits) && number_parts(s) is Some && trimmed_digits(number_parts(s)->0.digits)
            && -999999998 <= number_parts(s)->0.point <= 999999999 ==> canonical(
            JsonView::Real { bits, text: s },
        ) is Ok && number_parts(canonical(JsonView::Real { bits, text: s })->Ok_0) == number_parts(s),
        finite_bits(bits) <==> (bits / 4503599627370496) % 2048 != 2047,
{
    if finite_bits(bits) && number_parts(s) is Some && trimmed_digits(number_parts(s)->0.digits)
        && -999999998 <= number_parts(s)->0.point <= 999999999 {
        let p = number_parts(s)->0;
        a_written_number_reads_back(p.negative, p.digits, p.point);
    }
}

/// A number is written in full from 10^-6 up to below 10^21, and with an exponent beyond.
pub proof fn numbers_are_written_in_full_in_the_middle(
    negative: bool,
    digits: Seq<char>,
    point: int,
)
    requires
        trimmed_digits(digits),
    ensures
        es_text(negative, digits, point).contains('e') <==> point > 21 || point <= -6,
        es_text(negative, digits, point)[0] == '-' <==> negative,
        digits.len() <= point <= 21 ==> !es_text(negative, digits, point).contains('.'),
{
    reveal_strlit("-");
    reveal_strlit(".");
    reveal_strlit("0.");
    reveal_strlit("e+");
    reveal_strlit("e-");
    let s = es_text(negative, digits, point);
    let k = digits.len();
    assert(text::is_digit(digits[0]));
    let sign = if negative {
        "-"@
    } else {
        Seq::<char>::empty()
    };
    let m = sign.len() as int;
    if k <= point <= 21 {
        assert forall|i: int| 0 <= i < s.len() implies #[trigger] s[i] != 'e' && s[i] != '.' by {
            if m <= i < m + k {
                assert(s[i] == digits[i - m]);
                assert(text::is_digit(digits[i - m]));
            }
        }
    } else if 0 < point <= 21 {
        assert forall|i: int| 0 <= i < s.len() implies #[trigger] s[i] != 'e' by {
            if m <= i < m + point {
                assert(s[i] == digits[i - m]);
                assert(text::is_digit(digits[i - m]));
            } else if i > m + point {
                assert(s[i] == digits[i - m - 1]);
                assert(text::is_digit(digits[i - m - 1]));
            }
        }
    } else if -6 < point <= 0 {
        let z = -point;
        assert forall|i: int| 0 <= i < s.len() implies #[trigger] s[i] != 'e' by {
            if i >= m + 2 + z {
                assert(s[i] == digits[i - m - 2 - z]);
                assert(text::is_digit(digits[i - m - 2 - z]));
            }
        }
    } else {
        let mantissa = if k <= 1 {
            digits
        } else {
            digits.take(1) + "."@ + digits.skip(1)
        };
        assert(s[m + mantissa.len()] == 'e');
        assert(s[0] == if negative { '-' } else { digits[0] });
    }
    if k <= point <= 21 || 0 < point <= 21 {
        assert(s[0] == if negative { '-' } else { digits[0] });
    }
}

/// A place is named unambiguously: a slash and a tilde of a name are written so that neither is taken for
/// a separator, and every other character stands for itself.
pub proof fn a_pointer_names_its_place(c: char)
    ensures
        c == '~' ==> pointer_char(c) == seq!['~', '0'],
        c == '/' ==> pointer_char(c) == seq!['~', '1'],
        c != '~' && c != '/' ==> pointer_char(c) == seq![c],
        !pointer_char(c).contains('/'),
{
    reveal_strlit("~0");
    reveal_strlit("~1");
    assert("~0"@ =~= seq!['~', '0']);
    assert("~1"@ =~= seq!['~', '1']);
    if pointer_char(c).contains('/') {
        let i = choose|i: int| 0 <= i < pointer_char(c).len() && pointer_char(c)[i] == '/';
    }
}

/// A character of the basic plane is one code unit, its own code; any other is a surrogate pair that
/// spells its code. So characters beyond the basic plane come before those from U+E000 on.
pub proof fn code_units_are_those_of_utf_16(c: char, d: char)
    ensures
        (c as int) < 0x10000 ==> units_of(c) == seq![c as int],
        c as int >= 0x10000 ==> {
            let u = units_of(c);
            &&& u.len() == 2
            &&& 0xd800 <= u[0] < 0xdc00
            &&& 0xdc00 <= u[1] < 0xe000
            &&& c as int == 0x10000 + (u[0] - 0xd800) * 1024 + (u[1] - 0xdc00)
        },
        c as int >= 0x10000 && 0xe000 <= (d as int) < 0x10000 ==> name_lt(seq![c], seq![d])
            && !name_lt(seq![d], seq![c]),
        utf16(seq![c]) == units_of(c),
{
    let (s, t) = (seq![c], seq![d]);
    assert(s.skip(1) =~= Seq::<char>::empty());
    assert(t.skip(1) =~= Seq::<char>::empty());
    assert(utf16(s.skip(1)) =~= Seq::<int>::empty());
    assert(utf16(t.skip(1)) =~= Seq::<int>::empty());
    assert(utf16(s) =~= units_of(c));
    assert(utf16(t) =~= units_of(d));
    if c as int >= 0x10000 && 0xe000 <= (d as int) < 0x10000 {
        names_are_ordered_by_code_units(s, t, s, 0);
    }
}

/// A text's code units are those of its characters, in order.
pub proof fn code_units_follow_the_text(a: Seq<char>, b: Seq<char>)
    ensures
        utf16(a + b) == utf16(a) + utf16(b),
    decreases a.len(),
{
    if a.len() == 0 {
        assert(a + b =~= b);
        assert(utf16(a) + utf16(b) =~= utf16(b));
    } else {
        code_units_follow_the_text(a.skip(1), b);
        assert((a + b).skip(1) =~= a.skip(1) + b);
        assert(utf16(a + b) =~= utf16(a) + utf16(b));
    }
}

} // verus!
