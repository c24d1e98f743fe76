//! The byte encoding under every digest and signature: a domain tag followed by
//! fields, each text field preceded by its length, each optional field by a
//! presence byte, so that no two different records encode alike.

use vstd::prelude::*;
use vstd::bytes::*;
use vstd::utf8::*;
use crate::signed;
use crate::text;
use crate::time;
use crate::time::Timestamp;

verus! {

/// The UTF-8 bytes of a text.
pub open spec fn utf8(s: Seq<char>) -> Seq<u8> {
    encode_utf8(s)
}

/// Different texts have different UTF-8 bytes.
pub proof fn lemma_utf8_injective(a: Seq<char>, b: Seq<char>)
    requires
        utf8(a) == utf8(b),
    ensures
        a == b,
{
    vstd::utf8::encode_utf8_decode_utf8(a);
    vstd::utf8::encode_utf8_decode_utf8(b);
}

/// A character takes at most four UTF-8 bytes.
pub proof fn lemma_utf8_len(s: Seq<char>)
    ensures
        utf8(s).len() <= 4 * s.len(),
    decreases s.len(),
{
    if s.len() > 0 {
        lemma_utf8_len(s.drop_first());
    }
}

/// Eight bytes, least significant first.
pub open spec fn le64(n: u64) -> Seq<u8> {
    spec_u64_to_le_bytes(n)
}

/// Four bytes, least significant first.
pub open spec fn le32(n: u32) -> Seq<u8> {
    spec_u32_to_le_bytes(n)
}

/// The two's complement bytes of a signed number, least significant first.
pub open spec fn le64_signed(n: i64) -> Seq<u8> {
    le64(n as u64)
}

/// Bytes preceded by their length in eight bytes.
pub open spec fn field(b: Seq<u8>) -> Seq<u8> {
    le64(b.len() as u64) + b
}

/// A text preceded by the length of its UTF-8 bytes.
pub open spec fn text_field(s: Seq<char>) -> Seq<u8> {
    field(utf8(s))
}

/// A presence byte, then the text where there is one.
pub open spec fn opt_text_field(s: Option<Seq<char>>) -> Seq<u8> {
    match s {
        Some(x) => seq![1u8] + text_field(x),
        None => seq![0u8],
    }
}

/// Texts one after another, each as a text field.
pub open spec fn text_fields(v: Seq<Seq<char>>) -> Seq<u8>
    decreases v.len(),
{
    if v.len() == 0 {
        seq![]
    } else {
        text_fields(v.drop_last()) + text_field(v.last())
    }
}

/// Appends bytes as they stand.
pub fn put_bytes(out: &mut Vec<u8>, b: &[u8])
    ensures
        final(out)@ == old(out)@ + b@,
{
    let ghost before = out@;
    for i in 0..b.len()
        invariant
            out@ == before + b@.take(i as int),
    {
        out.push(b[i]);
        assert(before + b@.take(i + 1) =~= (before + b@.take(i as int)).push(b@[i as int]));
    }
    assert(b@.take(b@.len() as int) =~= b@);
}

/// Copies some bytes.
pub fn bytes_clone(b: &[u8]) -> (r: Vec<u8>)
    ensures
        r@ == b@,
{
    let mut out: Vec<u8> = Vec::new();
    out.extend_from_slice(b);
    assert(out@ =~= b@);
    out
}

/// Appends eight bytes, least significant first.
pub fn put_u64(out: &mut Vec<u8>, n: u64)
    ensures
        final(out)@ == old(out)@ + le64(n),
{
    let b = u64_to_le_bytes(n);
    put_bytes(out, b.as_slice());
}

/// Appends four bytes, least significant first.
pub fn put_u32(out: &mut Vec<u8>, n: u32)
    ensures
        final(out)@ == old(out)@ + le32(n),
{
    let b = u32_to_le_bytes(n);
    put_bytes(out, b.as_slice());
}

/// Appends the eight bytes of a signed number, least significant first.
pub fn put_i64(out: &mut Vec<u8>, n: i64)
    ensures
        final(out)@ == old(out)@ + le64_signed(n),
{
    put_u64(out, n as u64);
}

/// Appends bytes preceded by their length.
pub fn put_field(out: &mut Vec<u8>, b: &[u8])
    ensures
        final(out)@ == old(out)@ + field(b@),
{
    let ghost before = out@;
    put_u64(out, b.len() as u64);
    put_bytes(out, b);
    assert(out@ =~= before + field(b@));
}

/// Appends a text preceded by the length of its UTF-8 bytes.
pub fn put_text(out: &mut Vec<u8>, s: &str)
    ensures
        final(out)@ == old(out)@ + text_field(s@),
{
    put_field(out, s.as_bytes());
}

/// Appends a presence byte, and the text where there is one.
pub fn put_opt_text(out: &mut Vec<u8>, s: &Option<String>)
    ensures
        final(out)@ == old(out)@ + opt_text_field(text::opt_view(*s)),
{
    let ghost before = out@;
    match s {
        Some(x) => {
            out.push(1u8);
            put_text(out, x.as_str());
            assert(out@ =~= before + opt_text_field(Some(x@)));
        },
        None => {
            out.push(0u8);
            assert(out@ =~= before + opt_text_field(None));
        },
    }
}

/// Appends each text of a list as a text field.
pub fn put_texts(out: &mut Vec<u8>, v: &Vec<String>)
    ensures
        final(out)@ == old(out)@ + text_fields(text::views(v@)),
{
    let ghost before = out@;
    assert(text::views(v@.take(0)) =~= Seq::<Seq<char>>::empty());
    for i in 0..v.len()
        invariant
            out@ == before + text_fields(text::views(v@.take(i as int))),
    {
        put_text(out, v[i].as_str());
        proof {
            let done = text::views(v@.take(i as int));
            let next = text::views(v@.take(i + 1));
            assert(next =~= done.push(v@[i as int]@));
            assert(next.drop_last() =~= done);
            assert(out@ =~= before + text_fields(next));
        }
    }
    assert(v@.take(v@.len() as int) =~= v@);
}

/// A field ends where its length says: what follows two equal encodings agrees too.
pub proof fn lemma_field_prefix(a: Seq<u8>, b: Seq<u8>, x: Seq<u8>, y: Seq<u8>)
    requires
        field(a) + x == field(b) + y,
        a.len() <= u64::MAX,
        b.len() <= u64::MAX,
    ensures
        a == b,
        x == y,
{
    lemma_auto_spec_u64_to_from_le_bytes();
    let l = field(a) + x;
    let r = field(b) + y;
    let na = a.len() as u64;
    let nb = b.len() as u64;
    assert(l.take(8) =~= le64(na));
    assert(r.take(8) =~= le64(nb));
    assert(na == nb);
    assert(l.subrange(8, 8 + a.len() as int) =~= a);
    assert(r.subrange(8, 8 + b.len() as int) =~= b);
    assert(l.skip(8 + a.len() as int) =~= x);
    assert(r.skip(8 + b.len() as int) =~= y);
}

/// The same for text fields.
pub proof fn lemma_text_field_prefix(a: Seq<char>, b: Seq<char>, x: Seq<u8>, y: Seq<u8>)
    requires
        text_field(a) + x == text_field(b) + y,
        utf8(a).len() <= u64::MAX,
        utf8(b).len() <= u64::MAX,
    ensures
        a == b,
        x == y,
{
    lemma_field_prefix(utf8(a), utf8(b), x, y);
    lemma_utf8_injective(a, b);
}

/// The same for optional text fields.
pub proof fn lemma_opt_text_field_prefix(
    a: Option<Seq<char>>,
    b: Option<Seq<char>>,
    x: Seq<u8>,
    y: Seq<u8>,
)
    requires
        opt_text_field(a) + x == opt_text_field(b) + y,
        a is Some ==> utf8(a->0).len() <= u64::MAX,
        b is Some ==> utf8(b->0).len() <= u64::MAX,
    ensures
        a == b,
        x == y,
{
    let l = opt_text_field(a) + x;
    let r = opt_text_field(b) + y;
    assert(l[0] == r[0]);
    match (a, b) {
        (Some(p), Some(q)) => {
            assert(l.skip(1) =~= text_field(p) + x);
            assert(r.skip(1) =~= text_field(q) + y);
            lemma_text_field_prefix(p, q, x, y);
        },
        (None, None) => {
            assert(l.skip(1) =~= x);
            assert(r.skip(1) =~= y);
        },
        (Some(p), None) => {
            assert(l[0] == 1u8);
            assert(r[0] == 0u8);
        },
        (None, Some(q)) => {
            assert(l[0] == 0u8);
            assert(r[0] == 1u8);
        },
    }
}

/// Concatenation is associative.
pub proof fn lemma_assoc(a: Seq<u8>, b: Seq<u8>, c: Seq<u8>)
    ensures
        (a + b) + c == a + (b + c),
{
    assert((a + b) + c =~= a + (b + c));
}

/// Equal bytes behind a common part of equal length: the parts and the rests are equal.
pub proof fn lemma_split(a: Seq<u8>, b: Seq<u8>, x: Seq<u8>, y: Seq<u8>)
    requires
        a.len() == b.len(),
        a + x == b + y,
    ensures
        a == b,
        x == y,
{
    let l = a + x;
    let r = b + y;
    assert(l.take(a.len() as int) =~= a);
    assert(r.take(b.len() as int) =~= b);
    assert(l.skip(a.len() as int) =~= x);
    assert(r.skip(b.len() as int) =~= y);
}

/// Equal eight-byte numbers in front of equal bytes are equal, and so is what follows.
pub proof fn lemma_le64_prefix(m: u64, n: u64, x: Seq<u8>, y: Seq<u8>)
    requires
        le64(m) + x == le64(n) + y,
    ensures
        m == n,
        x == y,
{
    lemma_auto_spec_u64_to_from_le_bytes();
    lemma_split(le64(m), le64(n), x, y);
}

/// Equal four-byte numbers in front of equal bytes are equal, and so is what follows.
pub proof fn lemma_le32_prefix(m: u32, n: u32, x: Seq<u8>, y: Seq<u8>)
    requires
        le32(m) + x == le32(n) + y,
    ensures
        m == n,
        x == y,
{
    lemma_auto_spec_u32_to_from_le_bytes();
    lemma_split(le32(m), le32(n), x, y);
}

/// The same for signed numbers.
pub proof fn lemma_le64_signed_prefix(m: i64, n: i64, x: Seq<u8>, y: Seq<u8>)
    requires
        le64_signed(m) + x == le64_signed(n) + y,
    ensures
        m == n,
        x == y,
{
    lemma_le64_prefix(m as u64, n as u64, x, y);
    assert(m as u64 == n as u64 ==> m == n) by (bit_vector);
}

/// The bytes of an instant: its second, then the nanoseconds into it.
pub open spec fn instant_bytes(t: int) -> Seq<u8> {
    le64_signed(time::second_of(t) as i64) + le32((t % (time::NANOS_PER_SEC as int)) as u32)
}

/// Appends an instant.
pub fn put_instant(out: &mut Vec<u8>, t: Timestamp)
    ensures
        final(out)@ == old(out)@ + instant_bytes(t@),
{
    let ghost before = out@;
    put_i64(out, t.timestamp());
    put_u32(out, t.subsec_nanos());
    assert(out@ =~= before + instant_bytes(t@));
}

/// Equal instants in front of equal bytes are equal, and so is what follows.
pub proof fn lemma_instant_prefix(m: int, n: int, x: Seq<u8>, y: Seq<u8>)
    requires
        time::time_in_range(m),
        time::time_in_range(n),
        instant_bytes(m) + x == instant_bytes(n) + y,
    ensures
        m == n,
        x == y,
{
    let (sm, sn) = (time::second_of(m) as i64, time::second_of(n) as i64);
    let per = time::NANOS_PER_SEC as int;
    let (rm, rn) = ((m % per) as u32, (n % per) as u32);
    lemma_assoc(le64_signed(sm), le32(rm), x);
    lemma_assoc(le64_signed(sn), le32(rn), y);
    lemma_le64_signed_prefix(sm, sn, le32(rm) + x, le32(rn) + y);
    lemma_le32_prefix(rm, rn, x, y);
}

/// A presence byte, then the instant where there is one.
pub open spec fn opt_instant_bytes(t: Option<int>) -> Seq<u8> {
    match t {
        Some(x) => seq![1u8] + instant_bytes(x),
        None => seq![0u8],
    }
}

/// Appends a presence byte, and the instant where there is one.
pub fn put_opt_instant(out: &mut Vec<u8>, t: Option<Timestamp>)
    ensures
        final(out)@ == old(out)@ + opt_instant_bytes(signed::opt_time(t)),
{
    let ghost before = out@;
    match t {
        Some(x) => {
            out.push(1u8);
            put_instant(out, x);
            assert(out@ =~= before + opt_instant_bytes(Some(x@)));
        },
        None => {
            out.push(0u8);
            assert(out@ =~= before + opt_instant_bytes(None));
        },
    }
}

/// The same as for instants, for optional ones.
pub proof fn lemma_opt_instant_prefix(a: Option<int>, b: Option<int>, x: Seq<u8>, y: Seq<u8>)
    requires
        a is Some ==> time::time_in_range(a->0),
        b is Some ==> time::time_in_range(b->0),
        opt_instant_bytes(a) + x == opt_instant_bytes(b) + y,
    ensures
        a == b,
        x == y,
{
    let l = opt_instant_bytes(a) + x;
    let r = opt_instant_bytes(b) + y;
    assert(l[0] == r[0]);
    match (a, b) {
        (Some(p), Some(q)) => {
            assert(l.skip(1) =~= instant_bytes(p) + x);
            assert(r.skip(1) =~= instant_bytes(q) + y);
            lemma_instant_prefix(p, q, x, y);
        },
        (None, None) => {
            assert(l.skip(1) =~= x);
            assert(r.skip(1) =~= y);
        },
        (Some(p), None) => {
            assert(l[0] == 1u8);
            assert(r[0] == 0u8);
        },
        (None, Some(q)) => {
            assert(l[0] == 0u8);
            assert(r[0] == 1u8);
        },
    }
}

/// Equally many text fields in front of equal bytes are equal, and so is what follows.
pub proof fn lemma_text_fields_prefix(
    a: Seq<Seq<char>>,
    b: Seq<Seq<char>>,
    x: Seq<u8>,
    y: Seq<u8>,
)
    requires
        a.len() == b.len(),
        text_fields(a) + x == text_fields(b) + y,
        forall|i: int| 0 <= i < a.len() ==> utf8(#[trigger] a[i]).len() <= u64::MAX,
        forall|i: int| 0 <= i < b.len() ==> utf8(#[trigger] b[i]).len() <= u64::MAX,
    ensures
        a == b,
        x == y,
    decreases a.len(),
{
    if a.len() == 0 {
        assert(text_fields(a) + x =~= x);
        assert(text_fields(b) + y =~= y);
        assert(a =~= b);
    } else {
        let p = a.drop_last();
        let q = b.drop_last();
        lemma_assoc(text_fields(p), text_field(a.last()), x);
        lemma_assoc(text_fields(q), text_field(b.last()), y);
        assert forall|i: int| 0 <= i < p.len() implies utf8(#[trigger] p[i]).len() <= u64::MAX by {
            assert(p[i] == a[i]);
        }
        assert forall|i: int| 0 <= i < q.len() implies utf8(#[trigger] q[i]).len() <= u64::MAX by {
            assert(q[i] == b[i]);
        }
        lemma_text_fields_prefix(
            p,
            q,
            text_field(a.last()) + x,
            text_field(b.last()) + y,
        );
        assert(utf8(a[a.len() - 1]).len() <= u64::MAX);
        assert(utf8(b[b.len() - 1]).len() <= u64::MAX);
        lemma_text_field_prefix(a.last(), b.last(), x, y);
        assert(a =~= p.push(a.last()));
        assert(b =~= q.push(b.last()));
    }
}

/// Regrouping a sum of five.
pub proof fn lemma_assoc_five(a: Seq<u8>, b: Seq<u8>, c: Seq<u8>, d: Seq<u8>, e: Seq<u8>)
    ensures
        a + b + c + d + e == a + (b + (c + (d + e))),
{
    lemma_assoc(a + b + c, d, e);
    lemma_assoc(a + b, c, d + e);
    lemma_assoc(a, b, c + (d + e));
}

/// Regrouping a sum of six.
pub proof fn lemma_assoc_six(
    a: Seq<u8>,
    b: Seq<u8>,
    c: Seq<u8>,
    d: Seq<u8>,
    e: Seq<u8>,
    f: Seq<u8>,
)
    ensures
        a + b + c + d + e + f == a + (b + (c + (d + (e + f)))),
{
    lemma_assoc(a + b + c + d, e, f);
    lemma_assoc_five(a, b, c, d, e + f);
}

} // verus!
