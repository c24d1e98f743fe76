//! Base58 with the Bitcoin alphabet: a number written in base 58, with each leading zero
//! byte written as a leading `1`. The alphabet leaves out `0`, `I`, `O` and `l`.

use vstd::prelude::*;

verus! {

/// The character of a base 58 digit.
pub open spec fn digit58(d: int) -> char {
    if d < 9 {
        (49 + d) as char
    } else if d < 17 {
        (65 + (d - 9)) as char
    } else if d < 22 {
        (74 + (d - 17)) as char
    } else if d < 33 {
        (80 + (d - 22)) as char
    } else if d < 44 {
        (97 + (d - 33)) as char
    } else {
        (109 + (d - 44)) as char
    }
}

/// The value of a character of the alphabet.
pub open spec fn value58(c: char) -> Option<int> {
    if '1' <= c <= '9' {
        Some(c as int - 49)
    } else if 'A' <= c <= 'H' {
        Some(c as int - 65 + 9)
    } else if 'J' <= c <= 'N' {
        Some(c as int - 74 + 17)
    } else if 'P' <= c <= 'Z' {
        Some(c as int - 80 + 22)
    } else if 'a' <= c <= 'k' {
        Some(c as int - 97 + 33)
    } else if 'm' <= c <= 'z' {
        Some(c as int - 109 + 44)
    } else {
        None
    }
}

proof fn lemma_digit58(d: int)
    requires
        0 <= d < 58,
    ensures
        value58(digit58(d)) == Some(d),
        digit58(d) == '1' <==> d == 0,
{
}

/// Whether every character is one of the alphabet.
pub open spec fn is_base58(s: Seq<char>) -> bool {
    forall|i: int| 0 <= i < s.len() ==> value58(#[trigger] s[i]) is Some
}

/// The number that a text stands for in base 58, most significant digit first.
pub open spec fn base58_value(s: Seq<char>) -> int
    decreases s.len(),
{
    if s.len() == 0 {
        0
    } else {
        base58_value(s.drop_last()) * 58 + value58(s.last())->0
    }
}

/// The number that bytes stand for, most significant byte first.
pub open spec fn byte_value(b: Seq<u8>) -> int
    decreases b.len(),
{
    if b.len() == 0 {
        0
    } else {
        byte_value(b.drop_last()) * 256 + b.last()
    }
}

/// How many of the first elements equal `x`.
pub open spec fn leading<T>(s: Seq<T>, x: T) -> nat
    decreases s.len(),
{
    if s.len() > 0 && s[0] == x {
        1 + leading(s.skip(1), x)
    } else {
        0
    }
}

/// Whether `s` is the text written for `b`: the same number, and a `1` for every leading
/// zero byte, with one more where there is no other byte.
pub open spec fn base58_text_of(s: Seq<char>, b: Seq<u8>) -> bool {
    &&& is_base58(s)
    &&& base58_value(s) == byte_value(b)
    &&& leading(s, '1') == leading(b, 0u8) + (if byte_value(b) == 0 {
        1int
    } else {
        0int
    })
}

/// The text written for some bytes.
pub open spec fn base58_text(b: Seq<u8>) -> Seq<char> {
    choose|s: Seq<char>| base58_text_of(s, b)
}

/// Whether `b` is what a text over the alphabet stands for: the same number, and a zero
/// byte for every leading `1`.
pub open spec fn base58_bytes_of(b: Seq<u8>, s: Seq<char>) -> bool {
    byte_value(b) == base58_value(s) && leading(b, 0u8) == leading(s, '1')
}

/// The bytes that a text over the alphabet stands for.
pub open spec fn base58_bytes(s: Seq<char>) -> Seq<u8> {
    choose|b: Seq<u8>| base58_bytes_of(b, s)
}

/// The number of little-endian base 58 digits.
spec fn le_value(d: Seq<u32>) -> int
    decreases d.len(),
{
    if d.len() == 0 {
        0
    } else {
        d[0] + 58 * le_value(d.skip(1))
    }
}

spec fn digits_ok(d: Seq<u32>) -> bool {
    forall|i: int| 0 <= i < d.len() ==> #[trigger] d[i] < 58
}

spec fn pow58(n: nat) -> int
    decreases n,
{
    if n == 0 {
        1
    } else {
        58 * pow58((n - 1) as nat)
    }
}

proof fn lemma_le_value_push(d: Seq<u32>, x: u32)
    ensures
        le_value(d.push(x)) == le_value(d) + pow58(d.len()) * x,
    decreases d.len(),
{
    if d.len() == 0 {
        reveal_with_fuel(le_value, 2);
        assert(d.push(x).skip(1) =~= Seq::<u32>::empty());
        assert(le_value(d.push(x)) == x);
    } else {
        assert(d.push(x).skip(1) =~= d.skip(1).push(x));
        lemma_le_value_push(d.skip(1), x);
        assert(58 * (le_value(d.skip(1)) + pow58((d.len() - 1) as nat) * x) == 58 * le_value(
            d.skip(1),
        ) + (58 * pow58((d.len() - 1) as nat)) * x) by (nonlinear_arith);
    }
}

proof fn lemma_le_value_split(d: Seq<u32>, i: int)
    requires
        0 <= i <= d.len(),
    ensures
        le_value(d) == le_value(d.take(i)) + pow58(i as nat) * le_value(d.skip(i)),
    decreases i,
{
    if i == 0 {
        assert(d.skip(0) =~= d);
        assert(d.take(0) =~= Seq::<u32>::empty());
    } else {
        let t = d.skip(1);
        lemma_le_value_split(t, i - 1);
        assert(d.take(i).skip(1) =~= t.take(i - 1));
        assert(t.skip(i - 1) =~= d.skip(i));
        assert(58 * (le_value(t.take(i - 1)) + pow58((i - 1) as nat) * le_value(d.skip(i))) == 58
            * le_value(t.take(i - 1)) + (58 * pow58((i - 1) as nat)) * le_value(d.skip(i)))
            by (nonlinear_arith);
    }
}

/// Multiplies the digits by 256 and adds a byte.
fn push_byte(digits: &mut Vec<u32>, byte: u8)
    requires
        digits_ok(old(digits)@),
        old(digits)@.len() > 0,
        le_value(old(digits)@) == 0 ==> old(digits)@.len() == 1,
        le_value(old(digits)@) > 0 ==> old(digits)@.last() > 0,
        le_value(old(digits)@) >= 0,
    ensures
        digits_ok(final(digits)@),
        final(digits)@.len() > 0,
        le_value(final(digits)@) == le_value(old(digits)@) * 256 + byte,
        le_value(final(digits)@) == 0 ==> final(digits)@.len() == 1,
        le_value(final(digits)@) > 0 ==> final(digits)@.last() > 0,
{
    let ghost before = digits@;
    let mut carry: u32 = byte as u32;
    let mut i: usize = 0;
    assert(before.take(0) =~= Seq::<u32>::empty());
    assert(digits@.take(0) =~= Seq::<u32>::empty());
    while i < digits.len()
        invariant
            i <= digits.len(),
            digits@.len() == before.len(),
            digits_ok(before),
            digits_ok(digits@),
            carry <= 255,
            forall|j: int| i <= j < before.len() ==> digits@[j] == before[j],
            le_value(digits@.take(i as int)) + pow58(i as nat) * carry == le_value(
                before.take(i as int),
            ) * 256 + byte,
        decreases digits.len() - i,
    {
        let d: u32 = digits[i];
        let total: u32 = carry + d * 256;
        let ghost old_digits = digits@;
        digits.set(i, total % 58);
        proof {
            let p = pow58(i as nat);
            let low = digits@.take(i as int);
            assert(low =~= old_digits.take(i as int));
            assert(digits@.take(i + 1) =~= low.push((total % 58) as u32));
            assert(before.take(i + 1) =~= before.take(i as int).push(d));
            lemma_le_value_push(low, (total % 58) as u32);
            lemma_le_value_push(before.take(i as int), d);
            assert(before.take(i as int).len() == i && low.len() == i);
            assert(pow58((i + 1) as nat) == 58 * p);
            assert(p * (total % 58) + (58 * p) * (total / 58) == p * total) by (nonlinear_arith);
            assert(p * total == p * carry + (p * d) * 256) by (nonlinear_arith)
                requires
                    total == carry + d * 256,
            ;
            assert((le_value(before.take(i as int)) + p * d) * 256 == le_value(
                before.take(i as int),
            ) * 256 + (p * d) * 256) by (nonlinear_arith);
        }
        carry = total / 58;
        i = i + 1;
    }
    assert(digits@.take(digits@.len() as int) =~= digits@);
    assert(before.take(before.len() as int) =~= before);
    let ghost rewritten = digits@;
    let ghost n = digits@.len();
    let ghost left = carry as int;
    proof {
        // The top digit of a positive number stays positive unless a carry leaves it.
        if left == 0 && le_value(before) > 0 {
            lemma_top_digit(before, rewritten, byte as int);
        }
        if le_value(before) == 0 {
            assert(before.skip(1) =~= Seq::<u32>::empty());
            assert(rewritten.skip(1) =~= Seq::<u32>::empty());
            assert(pow58(1) == 58) by {
                assert(pow58(0) == 1);
            }
        }
    }
    if carry > 0 {
        let low: u32 = carry % 58;
        let high: u32 = carry / 58;
        proof {
            let p = pow58(n);
            lemma_le_value_push(digits@, low);
            lemma_le_value_push(digits@.push(low), high);
            assert(pow58((n + 1) as nat) == 58 * p);
            assert(p * low + (58 * p) * high == p * carry) by (nonlinear_arith)
                requires
                    carry == 58 * high + low,
            ;
            if high == 0 {
                assert((58 * p) * high == 0) by (nonlinear_arith)
                    requires
                        high == 0,
                ;
            }
        }
        digits.push(low);
        if high > 0 {
            digits.push(high);
        }
        proof {
            let p = pow58(n);
            lemma_pow58_positive(n);
            lemma_le_value_bounds(rewritten);
            assert(p * left > 0) by (nonlinear_arith)
                requires
                    p > 0,
                    left > 0,
            ;
        }
    } else {
        assert(pow58(n) * carry == 0) by (nonlinear_arith)
            requires
                carry == 0,
        ;
    }
}

proof fn lemma_pow58_positive(n: nat)
    ensures
        pow58(n) > 0,
    decreases n,
{
    if n > 0 {
        lemma_pow58_positive((n - 1) as nat);
    }
}

proof fn lemma_le_value_bounds(d: Seq<u32>)
    requires
        digits_ok(d),
    ensures
        0 <= le_value(d) < pow58(d.len()),
    decreases d.len(),
{
    if d.len() > 0 {
        let t = d.skip(1);
        assert forall|i: int| 0 <= i < t.len() implies #[trigger] t[i] < 58 by {
            assert(t[i] == d[i + 1]);
        }
        lemma_le_value_bounds(t);
    }
}

proof fn lemma_top_digit(before: Seq<u32>, after: Seq<u32>, byte: int)
    requires
        digits_ok(before),
        digits_ok(after),
        before.len() == after.len(),
        before.len() > 0,
        before.last() > 0,
        byte >= 0,
        le_value(after) == le_value(before) * 256 + byte,
    ensures
        after.last() > 0,
{
    reveal_with_fuel(le_value, 2);
    let n = before.len();
    let k = (n - 1) as int;
    lemma_le_value_split(before, k);
    lemma_le_value_split(after, k);
    assert(before.skip(k) =~= seq![before.last()]);
    assert(after.skip(k) =~= seq![after.last()]);
    assert(seq![before.last()].skip(1) =~= Seq::<u32>::empty());
    assert(seq![after.last()].skip(1) =~= Seq::<u32>::empty());
    assert(le_value(seq![before.last()]) == before.last());
    assert(le_value(seq![after.last()]) == after.last());
    let ta = after.take(k);
    let tb = before.take(k);
    assert forall|i: int| 0 <= i < ta.len() implies #[trigger] ta[i] < 58 by {
        assert(ta[i] == after[i]);
    }
    assert forall|i: int| 0 <= i < tb.len() implies #[trigger] tb[i] < 58 by {
        assert(tb[i] == before[i]);
    }
    lemma_le_value_bounds(ta);
    lemma_le_value_bounds(tb);
    let p = pow58(k as nat);
    if after.last() == 0 {
        assert(p * after.last() == 0) by (nonlinear_arith)
            requires
                after.last() == 0,
        ;
        assert(p * before.last() >= p) by (nonlinear_arith)
            requires
                p > 0,
                before.last() >= 1,
        ;
        assert(false);
    }
}

proof fn lemma_leading<T>(s: Seq<T>, x: T, k: nat)
    requires
        k <= s.len(),
        forall|i: int| 0 <= i < k ==> s[i] == x,
        k < s.len() ==> s[k as int] != x,
    ensures
        leading(s, x) == k,
    decreases s.len(),
{
    if k > 0 {
        lemma_leading(s.skip(1), x, (k - 1) as nat);
    }
}

proof fn lemma_leading_elements<T>(s: Seq<T>, x: T)
    ensures
        leading(s, x) <= s.len(),
        forall|i: int| 0 <= i < leading(s, x) ==> s[i] == x,
        leading(s, x) < s.len() ==> s[leading(s, x) as int] != x,
    decreases s.len(),
{
    if s.len() > 0 && s[0] == x {
        let t = s.skip(1);
        lemma_leading_elements(t, x);
        assert forall|i: int| 0 <= i < leading(s, x) implies s[i] == x by {
            if i > 0 {
                assert(t[i - 1] == s[i]);
            }
        }
    }
}

fn digit_of(d: u32) -> (r: char)
    requires
        d < 58,
    ensures
        r == digit58(d as int),
{
    let code: u8 = if d < 9 {
        49 + d as u8
    } else if d < 17 {
        65 + (d - 9) as u8
    } else if d < 22 {
        74 + (d - 17) as u8
    } else if d < 33 {
        80 + (d - 22) as u8
    } else if d < 44 {
        97 + (d - 33) as u8
    } else {
        109 + (d - 44) as u8
    };
    code as char
}

/// The base 58 text of some bytes.
pub fn bs58_encode(input: &[u8]) -> (r: String)
    ensures
        base58_text_of(r@, input@),
        r@ == base58_text(input@),
{
    let mut digits: Vec<u32> = Vec::new();
    digits.push(0);
    proof {
        reveal_with_fuel(le_value, 2);
        assert(digits@.skip(1) =~= Seq::<u32>::empty());
        assert(le_value(digits@) == 0);
        assert(input@.take(0) =~= Seq::<u8>::empty());
    }
    for i in 0..input.len()
        invariant
            digits_ok(digits@),
            digits@.len() > 0,
            le_value(digits@) == byte_value(input@.take(i as int)),
            le_value(digits@) == 0 ==> digits@.len() == 1,
            le_value(digits@) > 0 ==> digits@.last() > 0,
            le_value(digits@) >= 0,
    {
        push_byte(&mut digits, input[i]);
        assert(input@.take(i + 1).drop_last() =~= input@.take(i as int));
    }
    assert(input@.take(input@.len() as int) =~= input@);
    let mut zeros: usize = 0;
    while zeros < input.len() && input[zeros] == 0
        invariant
            zeros <= input.len(),
            forall|j: int| 0 <= j < zeros ==> input@[j] == 0u8,
        decreases input.len() - zeros,
    {
        zeros = zeros + 1;
    }
    proof {
        lemma_leading(input@, 0u8, zeros as nat);
    }
    let mut out = String::new();
    for i in 0..zeros
        invariant
            out@.len() == i,
            forall|j: int| 0 <= j < i ==> out@[j] == '1',
            is_base58(out@),
            base58_value(out@) == 0,
    {
        let ghost before = out@;
        out.push('1');
        assert(out@.drop_last() =~= before);
    }
    let mut j: usize = digits.len();
    assert(digits@.skip(j as int) =~= Seq::<u32>::empty());
    let ghost top = digits@.last();
    while j > 0
        invariant
            j <= digits.len(),
            digits_ok(digits@),
            digits@.len() > 0,
            top == digits@.last(),
            out@.len() == zeros + (digits@.len() - j),
            forall|k: int| 0 <= k < zeros ==> out@[k] == '1',
            j < digits@.len() ==> out@[zeros as int] == digit58(top as int),
            is_base58(out@),
            base58_value(out@) == le_value(digits@.skip(j as int)),
        decreases j,
    {
        let ghost before = out@;
        j = j - 1;
        proof {
            lemma_digit58(digits@[j as int] as int);
            assert(digits@.skip(j as int).skip(1) =~= digits@.skip(j + 1));
        }
        out.push(digit_of(digits[j]));
        assert(out@.drop_last() =~= before);
        assert(out@.last() == digit58(digits@[j as int] as int));
    }
    proof {
        assert(digits@.skip(0) =~= digits@);
        lemma_digit58(top as int);
        if byte_value(input@) == 0 {
            lemma_le_value_bounds(digits@);
            reveal_with_fuel(le_value, 2);
            assert(digits@.skip(1) =~= Seq::<u32>::empty());
            assert(top == 0);
            lemma_leading(out@, '1', (zeros + 1) as nat);
        } else {
            lemma_leading(out@, '1', zeros as nat);
        }
        assert(base58_text_of(out@, input@));
        assert(base58_text_of(base58_text(input@), input@));
        lemma_text_unique(out@, base58_text(input@));
    }
    out
}

/// The message of the error that decoding a text outside base 58 gives.
pub uninterp spec fn base58_error(s: Seq<char>) -> Seq<char>;

/// `bs58::decode(..).into_vec()` with the default alphabet: succeeds exactly on texts over
/// the alphabet, and gives the bytes of the same number with a leading zero byte for each
/// leading `1`. The message of the error is a function of the text.
#[verifier::external_body]
pub(crate) fn bs58_decode(s: &str) -> (r: Result<Vec<u8>, String>)
    ensures
        match r {
            Ok(b) => {
                &&& is_base58(s@)
                &&& base58_bytes_of(b@, s@)
            },
            Err(e) => !is_base58(s@) && e@ == base58_error(s@),
        },
{
    bs58::decode(s).into_vec().map_err(|e| e.to_string())
}

proof fn lemma_zero_value(b: Seq<u8>)
    requires
        byte_value(b) == 0,
    ensures
        leading(b, 0u8) == b.len(),
    decreases b.len(),
{
    if b.len() > 0 {
        lemma_byte_value_positive(b.drop_last());
        lemma_zero_value(b.drop_last());
        lemma_leading_elements(b.drop_last(), 0u8);
        assert forall|i: int| 0 <= i < b.len() implies b[i] == 0u8 by {
            if i < b.len() - 1 {
                assert(b.drop_last()[i] == b[i]);
            }
        }
        lemma_leading(b, 0u8, b.len());
    }
}

proof fn lemma_byte_value_positive(b: Seq<u8>)
    ensures
        byte_value(b) >= 0,
    decreases b.len(),
{
    if b.len() > 0 {
        lemma_byte_value_positive(b.drop_last());
    }
}

proof fn lemma_leading_drop_last(b: Seq<u8>)
    requires
        b.len() > 0,
        byte_value(b) > 0,
    ensures
        leading(b.drop_last(), 0u8) == leading(b, 0u8),
{
    lemma_leading_elements(b, 0u8);
    if leading(b, 0u8) == b.len() {
        lemma_all_zero(b);
    }
    let k = leading(b, 0u8);
    assert forall|i: int| 0 <= i < k implies b.drop_last()[i] == 0u8 by {
        assert(b.drop_last()[i] == b[i]);
    }
    lemma_leading(b.drop_last(), 0u8, k);
}

proof fn lemma_all_zero(b: Seq<u8>)
    requires
        forall|i: int| 0 <= i < b.len() ==> b[i] == 0u8,
    ensures
        byte_value(b) == 0,
    decreases b.len(),
{
    if b.len() > 0 {
        assert forall|i: int| 0 <= i < b.drop_last().len() implies b.drop_last()[i] == 0u8 by {
            assert(b.drop_last()[i] == b[i]);
        }
        lemma_all_zero(b.drop_last());
    }
}

/// Bytes are known by the number they stand for and their count of leading zeros.
pub proof fn lemma_bytes_unique(a: Seq<u8>, b: Seq<u8>)
    requires
        byte_value(a) == byte_value(b),
        leading(a, 0u8) == leading(b, 0u8),
    ensures
        a == b,
    decreases a.len(),
{
    lemma_byte_value_positive(a);
    if byte_value(a) == 0 {
        lemma_zero_value(a);
        lemma_zero_value(b);
        lemma_leading_elements(a, 0u8);
        lemma_leading_elements(b, 0u8);
        assert(a =~= b);
    } else {
        let ta = a.drop_last();
        let tb = b.drop_last();
        assert(a.len() > 0 && b.len() > 0);
        assert(byte_value(a) == byte_value(ta) * 256 + a.last());
        assert(byte_value(b) == byte_value(tb) * 256 + b.last());
        assert(byte_value(ta) == byte_value(tb) && a.last() == b.last());
        lemma_leading_drop_last(a);
        lemma_leading_drop_last(b);
        lemma_bytes_unique(ta, tb);
        assert(a =~= ta.push(a.last()));
        assert(b =~= tb.push(b.last()));
    }
}

/// Texts over the alphabet are known by the number they stand for and their count of
/// leading ones.
pub proof fn lemma_text_unique(a: Seq<char>, b: Seq<char>)
    requires
        is_base58(a),
        is_base58(b),
        base58_value(a) == base58_value(b),
        leading(a, '1') == leading(b, '1'),
    ensures
        a == b,
    decreases a.len(),
{
    lemma_base58_value_positive(a);
    lemma_leading_elements(a, '1');
    lemma_leading_elements(b, '1');
    if base58_value(a) == 0 {
        lemma_zero_text(a);
        lemma_zero_text(b);
        assert(a =~= b);
    } else {
        let ta = a.drop_last();
        let tb = b.drop_last();
        assert(a.len() > 0 && b.len() > 0);
        assert(value58(a.last()) is Some && value58(b.last()) is Some);
        lemma_value58_range(a.last());
        lemma_value58_range(b.last());
        assert forall|i: int| 0 <= i < ta.len() implies value58(#[trigger] ta[i]) is Some by {
            assert(ta[i] == a[i]);
        }
        assert forall|i: int| 0 <= i < tb.len() implies value58(#[trigger] tb[i]) is Some by {
            assert(tb[i] == b[i]);
        }
        assert(base58_value(ta) == base58_value(tb) && value58(a.last()) == value58(b.last()));
        lemma_text_leading_drop_last(a);
        lemma_text_leading_drop_last(b);
        lemma_text_unique(ta, tb);
        assert(a.last() == b.last());
        assert(a =~= ta.push(a.last()));
        assert(b =~= tb.push(b.last()));
    }
}

proof fn lemma_value58_range(c: char)
    requires
        value58(c) is Some,
    ensures
        0 <= value58(c)->0 < 58,
        digit58(value58(c)->0) == c,
{
}

proof fn lemma_base58_value_positive(s: Seq<char>)
    requires
        is_base58(s),
    ensures
        base58_value(s) >= 0,
    decreases s.len(),
{
    if s.len() > 0 {
        let t = s.drop_last();
        assert forall|i: int| 0 <= i < t.len() implies value58(#[trigger] t[i]) is Some by {
            assert(t[i] == s[i]);
        }
        lemma_base58_value_positive(t);
        lemma_value58_range(s.last());
    }
}

proof fn lemma_zero_text(s: Seq<char>)
    requires
        is_base58(s),
        base58_value(s) == 0,
    ensures
        leading(s, '1') == s.len(),
    decreases s.len(),
{
    if s.len() > 0 {
        let t = s.drop_last();
        assert forall|i: int| 0 <= i < t.len() implies value58(#[trigger] t[i]) is Some by {
            assert(t[i] == s[i]);
        }
        lemma_base58_value_positive(t);
        lemma_value58_range(s.last());
        lemma_zero_text(t);
        lemma_leading_elements(t, '1');
        assert forall|i: int| 0 <= i < s.len() implies s[i] == '1' by {
            if i < s.len() - 1 {
                assert(t[i] == s[i]);
            }
        }
        lemma_leading(s, '1', s.len());
    }
}

proof fn lemma_text_leading_drop_last(s: Seq<char>)
    requires
        s.len() > 0,
        is_base58(s),
        base58_value(s) > 0,
    ensures
        leading(s.drop_last(), '1') == leading(s, '1'),
{
    lemma_leading_elements(s, '1');
    if leading(s, '1') == s.len() {
        lemma_all_ones(s);
    }
    let k = leading(s, '1');
    assert forall|i: int| 0 <= i < k implies s.drop_last()[i] == '1' by {
        assert(s.drop_last()[i] == s[i]);
    }
    lemma_leading(s.drop_last(), '1', k);
}

proof fn lemma_all_ones(s: Seq<char>)
    requires
        forall|i: int| 0 <= i < s.len() ==> s[i] == '1',
    ensures
        base58_value(s) == 0,
    decreases s.len(),
{
    if s.len() > 0 {
        assert forall|i: int| 0 <= i < s.drop_last().len() implies s.drop_last()[i] == '1' by {
            assert(s.drop_last()[i] == s[i]);
        }
        lemma_all_ones(s.drop_last());
    }
}

/// What a text stands for is one byte string.
pub proof fn lemma_base58_bytes(b: Seq<u8>, s: Seq<char>)
    requires
        base58_bytes_of(b, s),
    ensures
        base58_bytes(s) == b,
{
    lemma_bytes_unique(base58_bytes(s), b);
}

/// The text written for some bytes, other than zeros alone, stands for those bytes.
pub proof fn lemma_base58_round_trip(s: Seq<char>, b: Seq<u8>)
    requires
        base58_text_of(s, b),
        byte_value(b) > 0,
    ensures
        is_base58(s),
        base58_bytes(s) == b,
{
    lemma_base58_bytes(b, s);
}

/// Every byte string has a text.
pub proof fn lemma_text_exists(b: Seq<u8>)
    requires
        byte_value(b) > 0,
    ensures
        base58_text_of(base58_text(b), b),
{
    let n = byte_value(b);
    let t = number_text(n);
    lemma_number_text(n);
    let ones = Seq::new(leading(b, 0u8), |i: int| '1');
    let s = ones + t;
    lemma_ones_value(ones, t);
    assert forall|i: int| 0 <= i < s.len() implies value58(#[trigger] s[i]) is Some by {
        if i >= ones.len() {
            assert(s[i] == t[i - ones.len()]);
        }
    }
    lemma_leading(s, '1', ones.len());
    assert(base58_text_of(s, b));
}

spec fn number_text(n: int) -> Seq<char>
    decreases n,
{
    if n <= 0 {
        Seq::<char>::empty()
    } else {
        number_text(n / 58).push(digit58(n % 58))
    }
}

proof fn lemma_number_text(n: int)
    requires
        n >= 0,
    ensures
        is_base58(number_text(n)),
        base58_value(number_text(n)) == n,
        n > 0 ==> number_text(n).len() > 0 && number_text(n)[0] != '1',
    decreases n,
{
    if n > 0 {
        let t = number_text(n / 58);
        lemma_number_text(n / 58);
        lemma_digit58(n % 58);
        let s = number_text(n);
        assert(s.drop_last() =~= t);
        assert forall|i: int| 0 <= i < s.len() implies value58(#[trigger] s[i]) is Some by {
            if i < t.len() {
                assert(s[i] == t[i]);
            }
        }
        if n < 58 {
            assert(t.len() == 0);
        }
    }
}

proof fn lemma_ones_value(ones: Seq<char>, t: Seq<char>)
    requires
        forall|i: int| 0 <= i < ones.len() ==> ones[i] == '1',
    ensures
        base58_value(ones + t) == base58_value(t),
    decreases t.len(),
{
    if t.len() == 0 {
        assert(ones + t =~= ones);
        lemma_all_ones(ones);
    } else {
        assert((ones + t).drop_last() =~= ones + t.drop_last());
        lemma_ones_value(ones, t.drop_last());
    }
}

/// A byte string whose first byte is not zero stands for a positive number.
pub proof fn lemma_first_byte(b: Seq<u8>)
    requires
        b.len() > 0,
        b[0] != 0u8,
    ensures
        byte_value(b) > 0,
{
    lemma_byte_value_positive(b);
    if byte_value(b) == 0 {
        lemma_zero_value(b);
    }
}

} // verus!
