//! Trust levels and multibase keys, as a verifiable data registry states them.

use vstd::prelude::*;
use vstd::string::*;
use crate::base58;
use crate::text;

verus! {

/// How far a registry vouches for an entry.
#[derive(Debug, Clone, Copy, PartialEq, Eq, PartialOrd, Ord, Structural)]
pub enum TrustLevel {
    /// Nothing is known.
    Unverified,
    /// The subject says so itself.
    SelfAsserted,
    /// A third party has checked it.
    Verified,
    /// The authority for the name says so.
    Authoritative,
}

/// What a base58btc multibase text stands for, or what is wrong with it.
pub open spec fn multibase_bytes(s: Seq<char>) -> Result<Seq<u8>, Seq<char>> {
    if !text::begins(s, "z"@) {
        Err("unsupported multibase encoding (expected 'z' for base58btc)"@)
    } else if !base58::is_base58(s.skip(1)) {
        Err("base58 decode failed: "@ + base58::base58_error(s.skip(1)))
    } else {
        Ok(base58::base58_bytes(s.skip(1)))
    }
}

/// Decode a base58btc multibase text.
pub fn decode_multibase(s: &str) -> (r: Result<Vec<u8>, String>)
    ensures
        match r {
            Ok(b) => multibase_bytes(s@) == Ok::<Seq<u8>, Seq<char>>(b@),
            Err(e) => multibase_bytes(s@) == Err::<Seq<u8>, Seq<char>>(e@),
        },
{
    proof {
        reveal_strlit("z");
    }
    match text::strip_prefix(s, "z") {
        None => Err("unsupported multibase encoding (expected 'z' for base58btc)".to_owned()),
        Some(body) => match base58::bs58_decode(body.as_str()) {
            Ok(b) => {
                proof {
                    base58::lemma_base58_bytes(b@, body@);
                }
                Ok(b)
            },
            Err(e) => {
                let mut m = "base58 decode failed: ".to_owned();
                m.append(e.as_str());
                Err(m)
            },
        },
    }
}

/// A multibase text is read exactly where it is a `z` and Base58 behind it, as the bytes of that Base58.
pub proof fn a_multibase_text_is_base58_behind_a_z(s: Seq<char>)
    ensures
        multibase_bytes(s) is Ok <==> s.len() > 0 && s[0] == 'z' && base58::is_base58(s.skip(1)),
        multibase_bytes(s) is Ok ==> multibase_bytes(s)->Ok_0 == base58::base58_bytes(s.skip(1)),
{
    reveal_strlit("z");
    if s.len() > 0 {
        assert(s.take(1)[0] == s[0]);
        if s[0] == 'z' {
            assert(s.take(1) =~= "z"@);
        }
    }
}

} // verus!
