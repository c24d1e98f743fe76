//! The cryptographic and encoding primitives the crate takes from outside crates,
//! each over plain bytes and text, with what is relied on of it.

use vstd::prelude::*;
use crate::text;

verus! {

// -- Secrets ----------------------------------------------------------------------

/// Secret bytes, wiped from memory when dropped.
#[verifier::external_body]
pub struct SecretBytes {
    inner: zeroize::Zeroizing<Vec<u8>>,
}

/// The bytes that a [`SecretBytes`] holds.
pub uninterp spec fn secret_bytes(s: SecretBytes) -> Seq<u8>;

impl SecretBytes {
    /// `Zeroizing::new`: the wrapper holds the bytes it was given.
    #[verifier::external_body]
    pub(crate) fn new(bytes: Vec<u8>) -> (r: SecretBytes)
        ensures
            secret_bytes(r) == bytes@,
    {
        SecretBytes { inner: zeroize::Zeroizing::new(bytes) }
    }

    /// `Zeroizing`'s dereference: lends the bytes the wrapper holds.
    #[verifier::external_body]
    pub(crate) fn as_slice(&self) -> (r: &[u8])
        ensures
            r@ == secret_bytes(*self),
    {
        self.inner.as_slice()
    }
}

/// `OsRng.fill_bytes`: fills a buffer of the given length from the operating system's
/// random source. Nothing is said of the bytes: they are drawn anew at each call.
#[verifier::external_body]
pub(crate) fn random_bytes(n: usize) -> (r: Vec<u8>)
    requires
        n <= 1024,
    ensures
        r@.len() == n,
{
    let mut b = vec![0u8; n];
    rand::RngCore::fill_bytes(&mut rand::rngs::OsRng, &mut b);
    b
}

// -- SHA-256 -----------------------------------------------------------------------

/// The SHA-256 digest of a byte string.
pub uninterp spec fn sha256_digest(data: Seq<u8>) -> Seq<u8>;

/// `Sha256::digest`: a function of the data alone, always 32 bytes long.
#[verifier::external_body]
pub(crate) fn sha256(data: &[u8]) -> (r: Vec<u8>)
    ensures
        r@ == sha256_digest(data@),
        r@.len() == 32,
{
    <sha2::Sha256 as sha2::Digest>::digest(data).to_vec()
}

/// Whether SHA-256 fails at what it is for on some byte strings: one of them has a digest that is
/// not 32 bytes long, or two of them have the same.
pub open spec fn breaks_on(inputs: Set<Seq<u8>>) -> bool {
    ||| exists|x: Seq<u8>| inputs.contains(x) && #[trigger] sha256_digest(x).len() != 32
    ||| exists|x: Seq<u8>, y: Seq<u8>|
        inputs.contains(x) && inputs.contains(y) && x != y && #[trigger] sha256_digest(x)
            == #[trigger] sha256_digest(y)
}

/// What fails on some byte strings fails on more.
pub proof fn lemma_breaks_on_more(less: Set<Seq<u8>>, more: Set<Seq<u8>>)
    requires
        less.subset_of(more),
        breaks_on(less),
    ensures
        breaks_on(more),
{
    if exists|x: Seq<u8>| less.contains(x) && #[trigger] sha256_digest(x).len() != 32 {
        let x = choose|x: Seq<u8>| less.contains(x) && #[trigger] sha256_digest(x).len() != 32;
        assert(more.contains(x));
    } else {
        let (x, y) = choose|x: Seq<u8>, y: Seq<u8>|
            less.contains(x) && less.contains(y) && x != y && #[trigger] sha256_digest(x)
                == #[trigger] sha256_digest(y);
        assert(more.contains(x) && more.contains(y));
    }
}

// -- Hexadecimal --------------------------------------------------------------------

/// The lower-case hexadecimal digit of a number below sixteen.
pub open spec fn hex_digit(n: nat) -> char {
    if n < 10 {
        text::digit_char(n)
    } else if n == 10 {
        'a'
    } else if n == 11 {
        'b'
    } else if n == 12 {
        'c'
    } else if n == 13 {
        'd'
    } else if n == 14 {
        'e'
    } else {
        'f'
    }
}

/// Two lower-case hexadecimal digits per byte.
pub open spec fn hex_text(b: Seq<u8>) -> Seq<char> {
    Seq::new(
        2 * b.len(),
        |i: int|
            if i % 2 == 0 {
                hex_digit((b[i / 2] / 16) as nat)
            } else {
                hex_digit((b[i / 2] % 16) as nat)
            },
    )
}

/// The value of a hexadecimal digit of either case.
pub open spec fn hex_value(c: char) -> Option<nat> {
    if '0' <= c <= '9' {
        Some((c as int - '0' as int) as nat)
    } else if 'a' <= c <= 'f' {
        Some((c as int - 'a' as int + 10) as nat)
    } else if 'A' <= c <= 'F' {
        Some((c as int - 'A' as int + 10) as nat)
    } else {
        None
    }
}

/// Whether a text is an even number of hexadecimal digits.
pub open spec fn is_hex(s: Seq<char>) -> bool {
    &&& s.len() % 2 == 0
    &&& forall|i: int| 0 <= i < s.len() ==> hex_value(#[trigger] s[i]) is Some
}

/// The bytes that an even number of hexadecimal digits stands for.
pub open spec fn hex_bytes(s: Seq<char>) -> Seq<u8> {
    Seq::new(
        s.len() / 2,
        |i: int| (16 * hex_value(s[2 * i])->0 + hex_value(s[2 * i + 1])->0) as u8,
    )
}

/// `hex::encode`: two lower-case hexadecimal digits per byte.
#[verifier::external_body]
pub(crate) fn hex_encode(b: &[u8]) -> (r: String)
    ensures
        r@ == hex_text(b@),
{
    hex::encode(b)
}

/// The message of the error for a text that is not hexadecimal.
pub uninterp spec fn hex_error(s: Seq<char>) -> Seq<char>;

/// `hex::decode`: succeeds on an even number of hexadecimal digits, of either case,
/// and returns the bytes they stand for. The message of its error is a function of the text.
#[verifier::external_body]
pub(crate) fn hex_decode(s: &str) -> (r: Result<Vec<u8>, String>)
    ensures
        r is Ok == is_hex(s@),
        r is Ok ==> r->Ok_0@ == hex_bytes(s@),
        r is Err ==> r->Err_0@ == hex_error(s@),
{
    hex::decode(s).map_err(|e| e.to_string())
}

proof fn lemma_hex_digit(n: nat)
    requires
        n < 16,
    ensures
        hex_value(hex_digit(n)) == Some(n),
{
}

/// Decoding the hexadecimal text of some bytes gives the bytes back.
pub proof fn lemma_hex_round_trip(b: Seq<u8>)
    ensures
        is_hex(hex_text(b)),
        hex_bytes(hex_text(b)) == b,
{
    let s = hex_text(b);
    assert forall|i: int| 0 <= i < s.len() implies hex_value(#[trigger] s[i]) is Some by {
        lemma_hex_digit((b[i / 2] / 16) as nat);
        lemma_hex_digit((b[i / 2] % 16) as nat);
    }
    assert forall|i: int| 0 <= i < b.len() implies #[trigger] hex_bytes(s)[i] == b[i] by {
        assert((2 * i) / 2 == i && (2 * i) % 2 == 0);
        assert((2 * i + 1) / 2 == i && (2 * i + 1) % 2 == 1);
        assert(s[2 * i] == hex_digit((b[i] / 16) as nat));
        assert(s[2 * i + 1] == hex_digit((b[i] % 16) as nat));
        lemma_hex_digit((b[i] / 16) as nat);
        lemma_hex_digit((b[i] % 16) as nat);
    }
    assert(hex_bytes(s) =~= b);
}

proof fn lemma_digit_case(n: nat)
    requires
        n < 16,
    ensures
        text::ascii_lower(hex_digit(n)) == hex_digit(n),
{
}

/// Byte strings whose hexadecimal texts differ from one text in nothing but case are the same.
pub proof fn lemma_hex_case(a: Seq<u8>, b: Seq<u8>, s: Seq<char>)
    requires
        text::same_letters(hex_text(a), s),
        text::same_letters(hex_text(b), s),
    ensures
        a == b,
{
    let (x, y) = (hex_text(a), hex_text(b));
    assert forall|i: int| 0 <= i < x.len() implies x[i] == y[i] by {
        lemma_digit_case((a[i / 2] / 16) as nat);
        lemma_digit_case((a[i / 2] % 16) as nat);
        lemma_digit_case((b[i / 2] / 16) as nat);
        lemma_digit_case((b[i / 2] % 16) as nat);
        assert(text::ascii_lower(x[i]) == text::ascii_lower(s[i]));
        assert(text::ascii_lower(y[i]) == text::ascii_lower(s[i]));
    }
    assert(x =~= y);
    lemma_hex_round_trip(a);
    lemma_hex_round_trip(b);
}

// -- Base64 --------------------------------------------------------------------------

/// The padded standard Base64 text of some bytes.
pub uninterp spec fn base64_text(b: Seq<u8>) -> Seq<char>;

/// What decoding a padded standard Base64 text gives: the bytes, or the message of the
/// error.
pub uninterp spec fn base64_decoded(s: Seq<char>) -> Result<Seq<u8>, Seq<char>>;

/// `Base64::encode_string`: a function of the bytes, which decoding gives back.
#[verifier::external_body]
pub(crate) fn base64_encode(b: &[u8]) -> (r: String)
    requires
        b@.len() <= usize::MAX / 4,
    ensures
        r@ == base64_text(b@),
        base64_decoded(r@) is Ok && base64_decoded(r@)->Ok_0 == b@,
{
    <base64ct::Base64 as base64ct::Encoding>::encode_string(b)
}

/// `Base64::decode_vec`: a function of the text.
#[verifier::external_body]
pub(crate) fn base64_decode(s: &str) -> (r: Result<Vec<u8>, String>)
    ensures
        match r {
            Ok(b) => base64_decoded(s@) == Ok::<Seq<u8>, Seq<char>>(b@),
            Err(e) => base64_decoded(s@) == Err::<Seq<u8>, Seq<char>>(e@),
        },
{
    <base64ct::Base64 as base64ct::Encoding>::decode_vec(s).map_err(|e| e.to_string())
}

/// The padded URL-safe Base64 text of some bytes.
pub uninterp spec fn base64url_text(b: Seq<u8>) -> Seq<char>;

/// What decoding a padded URL-safe Base64 text gives: the bytes, or the message of the
/// error.
pub uninterp spec fn base64url_decoded(s: Seq<char>) -> Result<Seq<u8>, Seq<char>>;

/// `Base64Url::encode_string`: a function of the bytes, which decoding gives back.
#[verifier::external_body]
pub(crate) fn base64url_encode(b: &[u8]) -> (r: String)
    requires
        b@.len() <= usize::MAX / 4,
    ensures
        r@ == base64url_text(b@),
        base64url_decoded(r@) is Ok && base64url_decoded(r@)->Ok_0 == b@,
{
    <base64ct::Base64Url as base64ct::Encoding>::encode_string(b)
}

/// `Base64Url::decode_vec`: a function of the text.
#[verifier::external_body]
pub(crate) fn base64url_decode(s: &str) -> (r: Result<Vec<u8>, String>)
    ensures
        match r {
            Ok(b) => base64url_decoded(s@) == Ok::<Seq<u8>, Seq<char>>(b@),
            Err(e) => base64url_decoded(s@) == Err::<Seq<u8>, Seq<char>>(e@),
        },
{
    <base64ct::Base64Url as base64ct::Encoding>::decode_vec(s).map_err(|e| e.to_string())
}

// -- Ed25519 -------------------------------------------------------------------------

/// The 32-byte public key of a 32-byte Ed25519 secret.
pub uninterp spec fn ed25519_public(secret: Seq<u8>) -> Seq<u8>;

/// The 64-byte signature that a 32-byte Ed25519 secret makes over a message.
pub uninterp spec fn ed25519_signature(secret: Seq<u8>, message: Seq<u8>) -> Seq<u8>;

/// Whether 32 bytes decode to a public key, or the message of the error.
pub uninterp spec fn ed25519_key_decodes(key: Seq<u8>) -> Result<(), Seq<char>>;

/// Whether a 64-byte signature over a message verifies under a key that decodes, or the
/// message of the error.
pub uninterp spec fn ed25519_verifies(key: Seq<u8>, message: Seq<u8>, signature: Seq<u8>) -> Result<
    (),
    Seq<char>,
>;

/// `SigningKey::generate` with the operating system's random source: 32 bytes.
#[verifier::external_body]
pub(crate) fn ed25519_generate() -> (r: Vec<u8>)
    ensures
        r@.len() == 32,
{
    ed25519_dalek::SigningKey::generate(&mut rand::rngs::OsRng).to_bytes().to_vec()
}

/// `SigningKey::verifying_key`: the public key of a secret, 32 bytes that decode.
#[verifier::external_body]
pub(crate) fn ed25519_public_key(secret: &[u8]) -> (r: Vec<u8>)
    requires
        secret@.len() == 32,
    ensures
        r@ == ed25519_public(secret@),
        r@.len() == 32,
        ed25519_key_decodes(r@) is Ok,
{
    let mut raw = [0u8; 32];
    raw.copy_from_slice(secret);
    ed25519_dalek::SigningKey::from_bytes(&raw).verifying_key().to_bytes().to_vec()
}

/// `SigningKey::sign`: deterministic, 64 bytes, and it verifies under the secret's own
/// public key, which decodes.
#[verifier::external_body]
pub(crate) fn ed25519_sign(secret: &[u8], message: &[u8]) -> (r: Vec<u8>)
    requires
        secret@.len() == 32,
    ensures
        r@ == ed25519_signature(secret@, message@),
        r@.len() == 64,
        ed25519_verifies(ed25519_public(secret@), message@, r@) is Ok,
{
    let mut raw = [0u8; 32];
    raw.copy_from_slice(secret);
    let key = ed25519_dalek::SigningKey::from_bytes(&raw);
    ed25519_dalek::Signer::sign(&key, message).to_bytes().to_vec()
}

/// `VerifyingKey::from_bytes`: a function of the bytes.
#[verifier::external_body]
pub(crate) fn ed25519_check_key(key: &[u8]) -> (r: Result<(), String>)
    requires
        key@.len() == 32,
    ensures
        match r {
            Ok(_) => ed25519_key_decodes(key@) is Ok,
            Err(e) => ed25519_key_decodes(key@) == Err::<(), Seq<char>>(e@),
        },
{
    let mut raw = [0u8; 32];
    raw.copy_from_slice(key);
    ed25519_dalek::VerifyingKey::from_bytes(&raw).map(|_| ()).map_err(|e| e.to_string())
}

/// `VerifyingKey::verify`: a function of the key, the message and the signature.
#[verifier::external_body]
pub(crate) fn ed25519_verify(key: &[u8], message: &[u8], signature: &[u8]) -> (r: Result<(), String>)
    requires
        key@.len() == 32,
        signature@.len() == 64,
        ed25519_key_decodes(key@) is Ok,
    ensures
        match r {
            Ok(_) => ed25519_verifies(key@, message@, signature@) is Ok,
            Err(e) => ed25519_verifies(key@, message@, signature@) == Err::<(), Seq<char>>(e@),
        },
{
    let mut raw = [0u8; 32];
    raw.copy_from_slice(key);
    let mut sig = [0u8; 64];
    sig.copy_from_slice(signature);
    ed25519_dalek::VerifyingKey::from_bytes(&raw).and_then(|k| {
        ed25519_dalek::Verifier::verify(&k, message, &ed25519_dalek::Signature::from_bytes(&sig))
    }).map_err(|e| e.to_string())
}

// -- ECDSA over P-256 ------------------------------------------------------------------

/// The compressed public key of a P-256 secret scalar, where the bytes are one.
pub uninterp spec fn p256_public(secret: Seq<u8>) -> Option<Seq<u8>>;

/// The DER signature a P-256 secret makes over a message, or the message of the error.
pub uninterp spec fn p256_signature(secret: Seq<u8>, message: Seq<u8>) -> Result<
    Seq<u8>,
    Seq<char>,
>;

/// Whether bytes decode to a P-256 public key in SEC1 form, or the message of the error.
pub uninterp spec fn p256_key_decodes(key: Seq<u8>) -> Result<(), Seq<char>>;

/// Whether bytes are a DER signature, or the message of the error.
pub uninterp spec fn p256_signature_decodes(signature: Seq<u8>) -> Result<(), Seq<char>>;

/// Whether a signature that decodes verifies over a message under a key that decodes,
/// or the message of the error.
pub uninterp spec fn p256_verifies(key: Seq<u8>, message: Seq<u8>, signature: Seq<u8>) -> Result<
    (),
    Seq<char>,
>;

/// P-256's `SigningKey::random` with the operating system's random source: a secret
/// scalar of 32 bytes.
#[verifier::external_body]
pub(crate) fn p256_generate() -> (r: Vec<u8>)
    ensures
        r@.len() == 32,
        p256_public(r@) is Some,
{
    p256::ecdsa::SigningKey::random(&mut rand::rngs::OsRng).to_bytes().to_vec()
}

/// P-256's `SigningKey::from_slice` and `VerifyingKey::from`: the compressed public key,
/// 33 bytes that decode, or `None` where the bytes are no secret scalar.
#[verifier::external_body]
pub(crate) fn p256_public_key(secret: &[u8]) -> (r: Option<Vec<u8>>)
    ensures
        match r {
            Some(k) => p256_public(secret@) == Some(k@) && k@.len() == 33 && p256_key_decodes(
                k@,
            ) is Ok,
            None => p256_public(secret@) is None,
        },
{
    p256::ecdsa::SigningKey::from_slice(secret).ok().map(|k| {
        p256::ecdsa::VerifyingKey::from(&k).to_encoded_point(true).as_bytes().to_vec()
    })
}

/// P-256's `try_sign` (RFC 6979, deterministic): a DER signature, which decodes and
/// verifies under the secret's own public key. An error means that the bytes are no
/// secret scalar or that no signature came out.
#[verifier::external_body]
pub(crate) fn p256_sign(secret: &[u8], message: &[u8]) -> (r: Result<Vec<u8>, String>)
    ensures
        match r {
            Ok(s) => {
                &&& p256_signature(secret@, message@) == Ok::<Seq<u8>, Seq<char>>(s@)
                &&& p256_public(secret@) is Some
                &&& p256_signature_decodes(s@) is Ok
                &&& p256_verifies(p256_public(secret@)->0, message@, s@) is Ok
            },
            Err(e) => p256_signature(secret@, message@) == Err::<Seq<u8>, Seq<char>>(e@),
        },
{
    p256::ecdsa::SigningKey::from_slice(secret).and_then(|k| {
        p256::ecdsa::signature::Signer::<p256::ecdsa::DerSignature>::try_sign(&k, message)
    }).map(|s| s.to_bytes().to_vec()).map_err(|e| e.to_string())
}

/// P-256's `VerifyingKey::from_sec1_bytes`: a function of the bytes.
#[verifier::external_body]
pub(crate) fn p256_check_key(key: &[u8]) -> (r: Result<(), String>)
    ensures
        match r {
            Ok(_) => p256_key_decodes(key@) is Ok,
            Err(e) => p256_key_decodes(key@) == Err::<(), Seq<char>>(e@),
        },
{
    p256::ecdsa::VerifyingKey::from_sec1_bytes(key).map(|_| ()).map_err(|e| e.to_string())
}

/// `DerSignature::from_bytes`: a function of the bytes.
#[verifier::external_body]
pub(crate) fn p256_check_signature(signature: &[u8]) -> (r: Result<(), String>)
    ensures
        match r {
            Ok(_) => p256_signature_decodes(signature@) is Ok,
            Err(e) => p256_signature_decodes(signature@) == Err::<(), Seq<char>>(e@),
        },
{
    p256::ecdsa::DerSignature::from_bytes(signature).map(|_| ()).map_err(|e| e.to_string())
}

/// P-256's `VerifyingKey::verify`: a function of the key, the message and the signature.
#[verifier::external_body]
pub(crate) fn p256_verify(key: &[u8], message: &[u8], signature: &[u8]) -> (r: Result<(), String>)
    requires
        p256_key_decodes(key@) is Ok,
        p256_signature_decodes(signature@) is Ok,
    ensures
        match r {
            Ok(_) => p256_verifies(key@, message@, signature@) is Ok,
            Err(e) => p256_verifies(key@, message@, signature@) == Err::<(), Seq<char>>(e@),
        },
{
    p256::ecdsa::DerSignature::from_bytes(signature).and_then(|s| {
        p256::ecdsa::VerifyingKey::from_sec1_bytes(key).and_then(|k| {
            p256::ecdsa::signature::Verifier::verify(&k, message, &s)
        })
    }).map_err(|e| e.to_string())
}

} // verus!
