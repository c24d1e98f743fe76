//! Text handling: characters in and out of strings, decimal numbers, prefixes,
//! replacement, and the ordering and sets of strings the rest of the crate uses.

use vstd::prelude::*;
use vstd::string::*;

verus! {

/// `String::push` appends one character.
pub assume_specification[ String::push ](s: &mut String, c: char)
    ensures
        final(s)@ == old(s)@.push(c),
;

/// The views of a sequence of strings.
pub open spec fn views(v: Seq<String>) -> Seq<Seq<char>> {
    v.map_values(|s: String| s@)
}

/// The view of an optional string.
pub open spec fn opt_view(s: Option<String>) -> Option<Seq<char>> {
    match s {
        Some(x) => Some(x@),
        None => None,
    }
}

/// The characters of a string.
pub fn chars_of(s: &str) -> (r: Vec<char>)
    ensures
        r@ == s@,
{
    let mut out: Vec<char> = Vec::new();
    for c in it: s.chars()
        invariant
            it.seq() == s@,
            out@ == s@.take(it.index()),
    {
        out.push(c);
        assert(s@.take(it.index() + 1) =~= s@.take(it.index()).push(c));
    }
    assert(s@.take(s@.len() as int) =~= s@);
    out
}

/// The string made of the given characters.
pub fn text_of(chars: &[char]) -> (r: String)
    ensures
        r@ == chars@,
{
    let mut out = String::new();
    for i in 0..chars.len()
        invariant
            out@ == chars@.take(i as int),
    {
        out.push(chars[i]);
        assert(chars@.take(i + 1) =~= chars@.take(i as int).push(chars@[i as int]));
    }
    assert(chars@.take(chars@.len() as int) =~= chars@);
    out
}

// -- Quotation --------------------------------------------------------------------

/// A text in double quotes, with its special characters escaped.
pub uninterp spec fn quoted_text(s: Seq<char>) -> Seq<char>;

/// `format!` with `{:?}`: the text in double quotes, a function of it.
#[verifier::external_body]
pub(crate) fn quoted(s: &str) -> (r: String)
    ensures
        r@ == quoted_text(s@),
{
    format!("{:?}", s)
}

// -- Decimal numbers ----------------------------------------------------------

/// The character for a decimal digit.
pub open spec fn digit_char(d: nat) -> char {
    if d == 0 {
        '0'
    } else if d == 1 {
        '1'
    } else if d == 2 {
        '2'
    } else if d == 3 {
        '3'
    } else if d == 4 {
        '4'
    } else if d == 5 {
        '5'
    } else if d == 6 {
        '6'
    } else if d == 7 {
        '7'
    } else if d == 8 {
        '8'
    } else {
        '9'
    }
}

/// A natural number in decimal, without leading zeros.
pub open spec fn decimal(n: nat) -> Seq<char>
    decreases n,
{
    if n < 10 {
        seq![digit_char(n)]
    } else {
        decimal(n / 10).push(digit_char(n % 10))
    }
}

/// An integer in decimal: a minus sign in front of a negative one.
pub open spec fn decimal_int(n: int) -> Seq<char> {
    if n < 0 {
        seq!['-'] + decimal((-n) as nat)
    } else {
        decimal(n as nat)
    }
}

fn digit(d: u64) -> (r: char)
    requires
        d < 10,
    ensures
        r == digit_char(d as nat),
{
    match d {
        0 => '0',
        1 => '1',
        2 => '2',
        3 => '3',
        4 => '4',
        5 => '5',
        6 => '6',
        7 => '7',
        8 => '8',
        _ => '9',
    }
}

/// An unsigned number in decimal.
pub fn u64_text(n: u64) -> (r: String)
    ensures
        r@ == decimal(n as nat),
    decreases n,
{
    if n < 10 {
        let mut s = String::new();
        s.push(digit(n));
        assert(s@ =~= decimal(n as nat));
        s
    } else {
        let mut s = u64_text(n / 10);
        s.push(digit(n % 10));
        s
    }
}

/// A signed number in decimal.
pub fn i64_text(n: i64) -> (r: String)
    ensures
        r@ == decimal_int(n as int),
{
    if n < 0 {
        let magnitude: u64 = if n == i64::MIN {
            9223372036854775808u64
        } else {
            (-n) as u64
        };
        let mut s = String::new();
        s.push('-');
        let digits = u64_text(magnitude);
        s.append(digits.as_str());
        assert(s@ =~= decimal_int(n as int));
        s
    } else {
        u64_text(n as u64)
    }
}

// -- Comparison -----------------------------------------------------------------

/// Whether two strings are equal.
pub fn str_eq(a: &str, b: &str) -> (r: bool)
    ensures
        r == (a@ == b@),
{
    let x = a.as_bytes();
    let y = b.as_bytes();
    let same = bytes_eq(x, y);
    proof {
        vstd::utf8::encode_utf8_decode_utf8(a@);
        vstd::utf8::encode_utf8_decode_utf8(b@);
    }
    same
}

/// Whether two byte strings are equal.
pub fn bytes_eq(a: &[u8], b: &[u8]) -> (r: bool)
    ensures
        r == (a@ == b@),
{
    if a.len() != b.len() {
        return false;
    }
    for i in 0..a.len()
        invariant
            a.len() == b.len(),
            forall|j: int| 0 <= j < i ==> a@[j] == b@[j],
    {
        if a[i] != b[i] {
            return false;
        }
    }
    assert(a@ =~= b@);
    true
}

/// A copy of an optional string.
pub fn opt_clone(a: &Option<String>) -> (r: Option<String>)
    ensures
        opt_view(r) == opt_view(*a),
        r == *a,
{
    match a {
        Some(x) => Some(x.clone()),
        None => None,
    }
}

/// A copy of a list of strings.
pub fn strings_clone(v: &Vec<String>) -> (r: Vec<String>)
    ensures
        views(r@) == views(v@),
        r@ == v@,
{
    let mut out: Vec<String> = Vec::new();
    for i in 0..v.len()
        invariant
            out@ == v@.take(i as int),
    {
        out.push(v[i].clone());
        assert(v@.take(i + 1) =~= v@.take(i as int).push(v@[i as int]));
    }
    assert(v@.take(v@.len() as int) =~= v@);
    out
}

// -- Prefixes, suffixes and searching -------------------------------------------

/// Whether `prefix` begins `s`.
pub open spec fn begins(s: Seq<char>, prefix: Seq<char>) -> bool {
    prefix.len() <= s.len() && s.take(prefix.len() as int) == prefix
}

/// Whether the string begins with the given prefix.
pub fn starts_with(s: &str, prefix: &str) -> (r: bool)
    ensures
        r == begins(s@, prefix@),
{
    let a = chars_of(s);
    let b = chars_of(prefix);
    if b.len() > a.len() {
        return false;
    }
    for i in 0..b.len()
        invariant
            a@ == s@,
            b@ == prefix@,
            b.len() <= a.len(),
            forall|j: int| 0 <= j < i ==> a@[j] == b@[j],
    {
        if a[i] != b[i] {
            assert(s@.take(prefix@.len() as int)[i as int] != prefix@[i as int]);
            return false;
        }
    }
    assert(s@.take(prefix@.len() as int) =~= prefix@);
    true
}

/// What follows `prefix` in `s`, where `s` begins with it.
pub fn strip_prefix(s: &str, prefix: &str) -> (r: Option<String>)
    ensures
        r is Some == begins(s@, prefix@),
        r is Some ==> r->0@ == s@.skip(prefix@.len() as int),
{
    if starts_with(s, prefix) {
        let n = prefix.unicode_len();
        let m = s.unicode_len();
        let rest = s.substring_char(n, m).to_owned();
        assert(rest@ =~= s@.skip(prefix@.len() as int));
        Some(rest)
    } else {
        None
    }
}

/// A text without the character `c` at its end, where it has it there.
pub open spec fn without_suffix(s: Seq<char>, c: char) -> Seq<char> {
    if s.len() > 0 && s.last() == c {
        s.drop_last()
    } else {
        s
    }
}

/// The string without one `c` at its end.
pub fn strip_suffix_char(s: &str, c: char) -> (r: String)
    ensures
        r@ == without_suffix(s@, c),
{
    let mut a = chars_of(s);
    if a.len() > 0 && a[a.len() - 1] == c {
        a.pop();
        assert(a@ =~= s@.drop_last());
    }
    text_of(a.as_slice())
}

/// Whether a character occurs in a string.
pub fn has_char(s: &str, c: char) -> (r: bool)
    ensures
        r == s@.contains(c),
{
    let a = chars_of(s);
    for i in 0..a.len()
        invariant
            a@ == s@,
            forall|j: int| 0 <= j < i ==> a@[j] != c,
    {
        if a[i] == c {
            assert(s@[i as int] == c);
            return true;
        }
    }
    false
}

/// `s` with every `from` replaced by `to`.
pub open spec fn replaced(s: Seq<char>, from: char, to: char) -> Seq<char> {
    s.map_values(|c: char| if c == from { to } else { c })
}

/// Replaces every occurrence of one character by another.
pub fn replace_char(s: &str, from: char, to: char) -> (r: String)
    ensures
        r@ == replaced(s@, from, to),
{
    let a = chars_of(s);
    let mut out = String::new();
    for i in 0..a.len()
        invariant
            a@ == s@,
            out@.len() == i,
            forall|j: int| 0 <= j < i ==> out@[j] == replaced(s@, from, to)[j],
    {
        if a[i] == from {
            out.push(to);
        } else {
            out.push(a[i]);
        }
    }
    assert(out@ =~= replaced(s@, from, to));
    out
}

/// `s` without the leading run of `c`.
pub open spec fn trimmed_start(s: Seq<char>, c: char) -> Seq<char>
    decreases s.len(),
{
    if s.len() > 0 && s[0] == c {
        trimmed_start(s.skip(1), c)
    } else {
        s
    }
}

/// `s` without the trailing run of `c`.
pub open spec fn trimmed_end(s: Seq<char>, c: char) -> Seq<char>
    decreases s.len(),
{
    if s.len() > 0 && s.last() == c {
        trimmed_end(s.drop_last(), c)
    } else {
        s
    }
}

/// `s` without the leading and trailing runs of `c`.
pub open spec fn trimmed(s: Seq<char>, c: char) -> Seq<char> {
    trimmed_end(trimmed_start(s, c), c)
}

/// Strips the trailing run of a character.
pub fn trim_end_char(s: &str, c: char) -> (r: String)
    ensures
        r@ == trimmed_end(s@, c),
{
    let a = chars_of(s);
    let mut end: usize = a.len();
    assert(a@.take(end as int) =~= s@);
    while end > 0 && a[end - 1] == c
        invariant
            a@ == s@,
            end <= a.len(),
            trimmed_end(a@.take(end as int), c) == trimmed_end(s@, c),
        decreases end,
    {
        assert(a@.take(end as int).drop_last() =~= a@.take(end - 1));
        end = end - 1;
    }
    let r = s.substring_char(0, end).to_owned();
    assert(r@ =~= a@.take(end as int));
    r
}

/// Strips the leading and trailing runs of a character.
pub fn trim_char(s: &str, c: char) -> (r: String)
    ensures
        r@ == trimmed(s@, c),
{
    let a = chars_of(s);
    let mut start: usize = 0;
    assert(a@.skip(start as int) =~= s@);
    while start < a.len() && a[start] == c
        invariant
            a@ == s@,
            start <= a.len(),
            trimmed_start(a@.skip(start as int), c) == trimmed_start(s@, c),
        decreases a.len() - start,
    {
        assert(a@.skip(start as int).skip(1) =~= a@.skip(start + 1));
        start = start + 1;
    }
    let rest = s.substring_char(start, s.unicode_len());
    assert(rest@ =~= a@.skip(start as int));
    trim_end_char(rest, c)
}

/// The first position of `c` in `s` at or after `from`, or the length of `s`.
pub open spec fn next_at(s: Seq<char>, c: char, from: int) -> int
    decreases s.len() - from,
{
    if from >= s.len() || s[from] == c {
        from
    } else {
        next_at(s, c, from + 1)
    }
}

/// The `n`th part of `s` between separators, counted from zero.
pub open spec fn nth_part(s: Seq<char>, sep: char, n: nat) -> Option<Seq<char>>
    decreases n,
{
    let end = next_at(s, sep, 0);
    if n == 0 {
        Some(s.take(end))
    } else if end < s.len() {
        nth_part(s.skip(end + 1), sep, (n - 1) as nat)
    } else {
        None
    }
}

/// The `n`th part of a string between separators, counted from zero.
pub fn split_nth(s: &str, sep: char, n: usize) -> (r: Option<String>)
    ensures
        opt_view(r) == nth_part(s@, sep, n as nat),
    decreases n,
{
    let a = chars_of(s);
    let mut end: usize = 0;
    while end < a.len() && a[end] != sep
        invariant
            a@ == s@,
            end <= a.len(),
            next_at(s@, sep, end as int) == next_at(s@, sep, 0),
        decreases a.len() - end,
    {
        end = end + 1;
    }
    if n == 0 {
        let r = s.substring_char(0, end).to_owned();
        assert(r@ =~= s@.take(end as int));
        Some(r)
    } else if end < a.len() {
        let rest = s.substring_char(end + 1, s.unicode_len());
        assert(rest@ =~= s@.skip(end + 1));
        split_nth(rest, sep, n - 1)
    } else {
        None
    }
}

// -- Letter case and blanks ----------------------------------------------------------

/// A character with an ASCII capital letter made small.
pub open spec fn ascii_lower(c: char) -> char {
    if 'A' <= c <= 'Z' {
        (c as int + 32) as char
    } else {
        c
    }
}

fn lower(c: char) -> (r: char)
    ensures
        r == ascii_lower(c),
{
    if c == 'A' {
        return 'a';
    }
    if c == 'B' {
        return 'b';
    }
    if c == 'C' {
        return 'c';
    }
    if c == 'D' {
        return 'd';
    }
    if c == 'E' {
        return 'e';
    }
    if c == 'F' {
        return 'f';
    }
    if c == 'G' {
        return 'g';
    }
    if c == 'H' {
        return 'h';
    }
    if c == 'I' {
        return 'i';
    }
    if c == 'J' {
        return 'j';
    }
    if c == 'K' {
        return 'k';
    }
    if c == 'L' {
        return 'l';
    }
    if c == 'M' {
        return 'm';
    }
    if c == 'N' {
        return 'n';
    }
    if c == 'O' {
        return 'o';
    }
    if c == 'P' {
        return 'p';
    }
    if c == 'Q' {
        return 'q';
    }
    if c == 'R' {
        return 'r';
    }
    if c == 'S' {
        return 's';
    }
    if c == 'T' {
        return 't';
    }
    if c == 'U' {
        return 'u';
    }
    if c == 'V' {
        return 'v';
    }
    if c == 'W' {
        return 'w';
    }
    if c == 'X' {
        return 'x';
    }
    if c == 'Y' {
        return 'y';
    }
    if c == 'Z' {
        return 'z';
    }
    c
}

/// Whether two texts are the same but for the case of ASCII letters.
pub open spec fn same_letters(a: Seq<char>, b: Seq<char>) -> bool {
    a.len() == b.len() && forall|i: int|
        0 <= i < a.len() ==> ascii_lower(#[trigger] a[i]) == ascii_lower(b[i])
}

/// Whether two strings are the same but for the case of ASCII letters.
pub fn eq_ignore_case(a: &str, b: &str) -> (r: bool)
    ensures
        r == same_letters(a@, b@),
{
    let x = chars_of(a);
    let y = chars_of(b);
    if x.len() != y.len() {
        return false;
    }
    for i in 0..x.len()
        invariant
            x@ == a@,
            y@ == b@,
            x@.len() == y@.len(),
            forall|j: int| 0 <= j < i ==> ascii_lower(#[trigger] x@[j]) == ascii_lower(y@[j]),
    {
        if lower(x[i]) != lower(y[i]) {
            assert(ascii_lower(x@[i as int]) != ascii_lower(y@[i as int]));
            return false;
        }
    }
    true
}

/// Whether a character is white space, as Unicode has it.
pub open spec fn is_blank(c: char) -> bool {
    ('\u{9}' <= c <= '\u{d}') || c == ' ' || c == '\u{85}' || c == '\u{a0}' || c == '\u{1680}' || (
    '\u{2000}' <= c <= '\u{200a}') || c == '\u{2028}' || c == '\u{2029}' || c == '\u{202f}' || c
        == '\u{205f}' || c == '\u{3000}'
}

/// Whether a text is empty but for white space.
pub open spec fn all_blank(s: Seq<char>) -> bool {
    forall|i: int| 0 <= i < s.len() ==> is_blank(#[trigger] s[i])
}

/// Whether a string is empty but for white space.
pub fn is_all_blank(s: &str) -> (r: bool)
    ensures
        r == all_blank(s@),
{
    let x = chars_of(s);
    for i in 0..x.len()
        invariant
            x@ == s@,
            forall|j: int| 0 <= j < i ==> is_blank(#[trigger] x@[j]),
    {
        let c = x[i];
        let blank = (c >= '\u{9}' && c <= '\u{d}') || c == ' ' || c == '\u{85}' || c == '\u{a0}' || c
            == '\u{1680}' || (c >= '\u{2000}' && c <= '\u{200a}') || c == '\u{2028}' || c
            == '\u{2029}' || c == '\u{202f}' || c == '\u{205f}' || c == '\u{3000}';
        if !blank {
            assert(!is_blank(x@[i as int]));
            return false;
        }
    }
    true
}

// -- Decimal digits ---------------------------------------------------------------------------

/// Whether a character is a decimal digit.
pub open spec fn is_digit(c: char) -> bool {
    '0' <= c <= '9'
}

/// Whether a text is made of decimal digits.
pub open spec fn all_digits(s: Seq<char>) -> bool {
    forall|i: int| 0 <= i < s.len() ==> is_digit(#[trigger] s[i])
}

/// The number that decimal digits write.
pub open spec fn digits_value(s: Seq<char>) -> nat
    decreases s.len(),
{
    if s.len() == 0 {
        0
    } else {
        digits_value(s.drop_last()) * 10 + (s.last() as int - '0' as int) as nat
    }
}

/// The value of a decimal digit.
pub fn digit_of(c: char) -> (r: Option<u64>)
    ensures
        r is Some == is_digit(c),
        r is Some ==> r->0 == c as int - '0' as int,
{
    if c == '0' {
        Some(0)
    } else if c == '1' {
        Some(1)
    } else if c == '2' {
        Some(2)
    } else if c == '3' {
        Some(3)
    } else if c == '4' {
        Some(4)
    } else if c == '5' {
        Some(5)
    } else if c == '6' {
        Some(6)
    } else if c == '7' {
        Some(7)
    } else if c == '8' {
        Some(8)
    } else if c == '9' {
        Some(9)
    } else {
        None
    }
}

/// The number that a text writes: digits, at least one, after an optional plus sign.
pub open spec fn number_of(s: Seq<char>) -> Option<nat> {
    let body = if s.len() > 0 && s[0] == '+' {
        s.skip(1)
    } else {
        s
    };
    if body.len() > 0 && all_digits(body) {
        Some(digits_value(body))
    } else {
        None
    }
}

/// Parse a number of 64 bits.
pub fn parse_u64(s: &str) -> (r: Option<u64>)
    ensures
        r == (match number_of(s@) {
            Some(n) => if n <= u64::MAX {
                Some(n as u64)
            } else {
                None
            },
            None => None,
        }),
{
    let chars = chars_of(s);
    let start: usize = if chars.len() > 0 && chars[0] == '+' {
        1
    } else {
        0
    };
    let ghost body = if s@.len() > 0 && s@[0] == '+' {
        s@.skip(1)
    } else {
        s@
    };
    assert(body =~= chars@.skip(start as int));
    let mut value: u64 = 0;
    let mut large: bool = false;
    for i in start..chars.len()
        invariant
            start <= chars@.len(),
            body == chars@.skip(start as int),
            body == (if s@.len() > 0 && s@[0] == '+' {
                s@.skip(1)
            } else {
                s@
            }),
            all_digits(body.take(i - start)),
            large == (digits_value(body.take(i - start)) > u64::MAX),
            !large ==> value == digits_value(body.take(i - start)),
    {
        let ghost done = body.take(i - start);
        let ghost more = body.take(i + 1 - start);
        assert(more.drop_last() =~= done);
        assert(more.last() == chars@[i as int] == body[i - start]);
        match digit_of(chars[i]) {
            None => {
                assert(!is_digit(body[i - start]));
                return None;
            },
            Some(d) => {
                if !large {
                    match value.checked_mul(10) {
                        Some(t) => match t.checked_add(d) {
                            Some(v) => {
                                value = v;
                            },
                            None => {
                                large = true;
                            },
                        },
                        None => {
                            large = true;
                        },
                    }
                }
            },
        }
        assert forall|j: int| 0 <= j < more.len() implies is_digit(#[trigger] more[j]) by {
            if j < done.len() {
                assert(more[j] == done[j]);
            }
        }
    }
    assert(body.take(chars@.len() - start) =~= body);
    if chars.len() == start || large {
        None
    } else {
        Some(value)
    }
}

// -- Lists ------------------------------------------------------------------------

/// Appends an item, of any type, to a list.
pub fn put_last<S>(v: &mut Vec<S>, x: S)
    ensures
        final(v)@ == old(v)@.push(x),
        final(v)@.len() == old(v)@.len() + 1,
        final(v)@.last() == x,
        forall|i: int| 0 <= i < old(v)@.len() ==> #[trigger] final(v)@[i] == old(v)@[i],
{
    v.push(x);
}

// -- What holds of texts ------------------------------------------------------------------------------

/// A number in decimal reads back: its digits are digits, they are worth the number, and none stands in
/// front in vain. So no two numbers are written alike.
pub proof fn a_decimal_reads_back(n: nat)
    ensures
        decimal(n).len() > 0,
        all_digits(decimal(n)),
        digits_value(decimal(n)) == n,
        number_of(decimal(n)) == Some(n),
        n > 0 ==> decimal(n)[0] != '0',
    decreases n,
{
    let s = decimal(n);
    if n >= 10 {
        a_decimal_reads_back(n / 10);
        let p = decimal(n / 10);
        assert(s.drop_last() =~= p);
        assert forall|i: int| 0 <= i < s.len() implies is_digit(#[trigger] s[i]) by {
            if i < p.len() {
                assert(s[i] == p[i]);
            }
        }
        assert(s[0] == p[0]);
    } else {
        assert(s.drop_last() =~= Seq::<char>::empty());
        assert(digits_value(s.drop_last()) == 0);
        assert(s.last() == digit_char(n));
    }
}

/// Two integers are written alike only where they are the same.
pub proof fn decimals_are_told_apart(m: int, n: int)
    requires
        decimal_int(m) == decimal_int(n),
    ensures
        m == n,
{
    if m < 0 {
        a_decimal_reads_back((-m) as nat);
        assert(decimal_int(m)[0] == '-');
        assert(decimal_int(m).skip(1) =~= decimal((-m) as nat));
    } else {
        a_decimal_reads_back(m as nat);
        assert(is_digit(decimal_int(m)[0]));
    }
    if n < 0 {
        a_decimal_reads_back((-n) as nat);
        assert(decimal_int(n)[0] == '-');
        assert(decimal_int(n).skip(1) =~= decimal((-n) as nat));
    } else {
        a_decimal_reads_back(n as nat);
        assert(is_digit(decimal_int(n)[0]));
    }
}

/// A text begins with another exactly where something follows that makes it up.
pub proof fn a_text_begins_with_its_front(s: Seq<char>, prefix: Seq<char>, rest: Seq<char>)
    ensures
        begins(prefix + rest, prefix),
        begins(s, prefix) ==> s == prefix + s.skip(prefix.len() as int),
        prefix.len() > s.len() ==> !begins(s, prefix),
{
    assert((prefix + rest).take(prefix.len() as int) =~= prefix);
    if begins(s, prefix) {
        assert(s =~= s.take(prefix.len() as int) + s.skip(prefix.len() as int));
    }
}

/// Looking for a character gives its first place, or the end where there is none.
pub proof fn a_character_is_found_where_it_first_stands(s: Seq<char>, c: char, from: int)
    requires
        0 <= from <= s.len(),
    ensures
        from <= next_at(s, c, from) <= s.len(),
        next_at(s, c, from) < s.len() ==> s[next_at(s, c, from)] == c,
        forall|i: int| from <= i < next_at(s, c, from) ==> #[trigger] s[i] != c,
    decreases s.len() - from,
{
    if from < s.len() && s[from] != c {
        a_character_is_found_where_it_first_stands(s, c, from + 1);
    }
}

/// A text is taken apart at its separators: the first part ends at the first one, and each other part
/// is a part of what follows it; behind the last there is none.
pub proof fn a_text_is_parted_at_its_separators(front: Seq<char>, sep: char, rest: Seq<char>, n: nat)
    requires
        !front.contains(sep),
    ensures
        nth_part(front, sep, 0) == Some(front),
        nth_part(front, sep, n + 1) is None,
        nth_part(front.push(sep) + rest, sep, 0) == Some(front),
        nth_part(front.push(sep) + rest, sep, n + 1) == nth_part(rest, sep, n),
{
    let s = front.push(sep) + rest;
    let k = front.len() as int;
    a_character_is_found_where_it_first_stands(front, sep, 0);
    a_character_is_found_where_it_first_stands(s, sep, 0);
    let e = next_at(front, sep, 0);
    if e < front.len() {
        assert(front.contains(front[e]));
    }
    assert(front.take(k) =~= front);
    let f = next_at(s, sep, 0);
    assert(s[k] == sep);
    if f < k {
        assert(s[f] == front[f]);
        assert(front.contains(front[f]));
    }
    assert(f == k);
    assert(s.take(k) =~= front);
    assert(s.skip(k + 1) =~= rest);
}

/// Trimming takes away the runs at both ends and nothing else: what is left neither begins nor ends
/// with the character, and the text is what is left between runs of it.
pub proof fn trimming_takes_the_runs_away(s: Seq<char>, c: char)
    ensures
        trimmed_end(s, c).len() <= s.len(),
        trimmed_end(s, c) == s.take(trimmed_end(s, c).len() as int),
        trimmed_end(s, c).len() > 0 ==> trimmed_end(s, c).last() != c,
        forall|i: int| trimmed_end(s, c).len() <= i < s.len() ==> #[trigger] s[i] == c,
        trimmed_start(s, c).len() <= s.len(),
        trimmed_start(s, c) == s.skip(s.len() - trimmed_start(s, c).len()),
        trimmed_start(s, c).len() > 0 ==> trimmed_start(s, c)[0] != c,
        forall|i: int|
            0 <= i < s.len() - trimmed_start(s, c).len() ==> #[trigger] s[i] == c,
    decreases s.len(),
{
    if s.len() > 0 && s.last() == c {
        let p = s.drop_last();
        trimming_takes_the_runs_away(p, c);
        let n = trimmed_end(p, c).len() as int;
        assert(p.take(n) =~= s.take(n));
        assert forall|i: int| n <= i < s.len() implies #[trigger] s[i] == c by {
            if i < p.len() {
                assert(p[i] == c);
            }
        }
    } else {
        assert(s.take(s.len() as int) =~= s);
    }
    if s.len() > 0 && s[0] == c {
        let t = s.skip(1);
        trimming_takes_the_runs_away(t, c);
        let m = trimmed_start(t, c).len() as int;
        assert(t.skip(t.len() - m) =~= s.skip(s.len() - m));
        assert forall|i: int| 0 <= i < s.len() - m implies #[trigger] s[i] == c by {
            if i > 0 {
                assert(t[i - 1] == c);
            }
        }
    } else {
        assert(s.skip(0) =~= s);
    }
}

/// Only the case of its Latin letters makes no difference to a text: texts without capitals have the
/// same letters exactly where they are equal, and a capital has the letter of its small one.
pub proof fn only_case_makes_no_difference(a: Seq<char>, b: Seq<char>)
    ensures
        same_letters(a, a),
        same_letters(a, b) <==> same_letters(b, a),
        (forall|i: int| 0 <= i < a.len() ==> !('A' <= #[trigger] a[i] <= 'Z')) && (forall|i: int|
            0 <= i < b.len() ==> !('A' <= #[trigger] b[i] <= 'Z')) ==> (same_letters(a, b) <==> a
            == b),
        ascii_lower('A') == 'a' && ascii_lower('M') == 'm' && ascii_lower('Z') == 'z',
{
    if (forall|i: int| 0 <= i < a.len() ==> !('A' <= #[trigger] a[i] <= 'Z')) && (forall|i: int|
        0 <= i < b.len() ==> !('A' <= #[trigger] b[i] <= 'Z')) && same_letters(a, b) {
        assert forall|i: int| 0 <= i < a.len() implies a[i] == b[i] by {
            assert(ascii_lower(a[i]) == ascii_lower(b[i]));
        }
        assert(a =~= b);
    }
    if same_letters(a, b) {
        assert forall|i: int| 0 <= i < b.len() implies ascii_lower(#[trigger] b[i]) == ascii_lower(
            a[i],
        ) by {
            assert(ascii_lower(a[i]) == ascii_lower(b[i]));
        }
    }
    if same_letters(b, a) {
        assert forall|i: int| 0 <= i < a.len() implies ascii_lower(#[trigger] a[i]) == ascii_lower(
            b[i],
        ) by {
            assert(ascii_lower(b[i]) == ascii_lower(a[i]));
        }
    }
}

/// Replacing changes each place where the character stands and no other.
pub proof fn replacing_changes_each_place(s: Seq<char>, from: char, to: char, i: int)
    requires
        0 <= i < s.len(),
    ensures
        replaced(s, from, to).len() == s.len(),
        s[i] == from ==> replaced(s, from, to)[i] == to,
        s[i] != from ==> replaced(s, from, to)[i] == s[i],
        from != to ==> !replaced(s, from, to).contains(from),
{
    let r = replaced(s, from, to);
    if from != to && r.contains(from) {
        let k = choose|k: int| 0 <= k < r.len() && r[k] == from;
        assert(r[k] == if s[k] == from { to } else { s[k] });
    }
}

/// A text is blank where it has nothing but white space: nothing at all, spaces and line breaks are, a
/// text with a letter, a digit or a sign is not.
pub proof fn a_blank_text_says_nothing(s: Seq<char>, i: int)
    ensures
        s.len() == 0 ==> all_blank(s),
        (forall|k: int|
            0 <= k < s.len() ==> #[trigger] s[k] == ' ' || s[k] == '\t' || s[k] == '\n' || s[k]
                == '\r') ==> all_blank(s),
        0 <= i < s.len() && '!' <= s[i] <= '~' ==> !all_blank(s),
{
    if 0 <= i < s.len() && '!' <= s[i] <= '~' {
        assert(!is_blank(s[i]));
    }
}

} // verus!
