//! What the crate takes from BBS+ over BLS12-381: keys, signatures over lists of messages, and
//! zero-knowledge proofs that reveal some of them. A message stands here by its SHA-256
//! digest, which becomes a field element.

use std::collections::BTreeMap;

use ark_bls12_381::{Bls12_381, Fr};
use ark_ff::PrimeField;
use ark_serialize::{CanonicalDeserialize, CanonicalSerialize};
use bbs_plus::prelude::{
    KeypairG2, PoKOfSignatureG1Proof, PoKOfSignatureG1Protocol, PublicKeyG2, SignatureG1,
    SignatureParamsG1,
};
use bbs_plus::setup::SecretKey;
use blake2::Blake2b;
use rand::rngs::{OsRng, StdRng};
use rand::SeedableRng;
use vstd::prelude::*;

verus! {

/// The most messages that a call is made with: beyond it, the size in bytes of their
/// generators overflows.
pub const MAX_MESSAGES: usize = usize::MAX / 1024;

/// The public key of a secret key, under the parameters of a label.
pub uninterp spec fn bbs_public(label: Seq<u8>, secret: Seq<u8>) -> Seq<u8>;

/// Whether a signature over messages verifies under a public key.
pub uninterp spec fn bbs_signed(
    label: Seq<u8>,
    key: Seq<u8>,
    messages: Seq<Seq<u8>>,
    signature: Seq<u8>,
) -> bool;

/// Whether bytes decode to a public key, or the text of the error.
pub uninterp spec fn bbs_key_decodes(key: Seq<u8>) -> Result<(), Seq<char>>;

/// What a prover commits to before the challenge, drawing its randomness from a seed, or the
/// text of the error.
pub uninterp spec fn bbs_commitment(
    label: Seq<u8>,
    signature: Seq<u8>,
    messages: Seq<Seq<u8>>,
    revealed: Seq<usize>,
    seed: Seq<u8>,
) -> Result<Seq<u8>, Seq<char>>;

/// The proof that a prover makes for a challenge, drawing its randomness from a seed, or the
/// text of the error.
pub uninterp spec fn bbs_proof(
    label: Seq<u8>,
    signature: Seq<u8>,
    messages: Seq<Seq<u8>>,
    revealed: Seq<usize>,
    seed: Seq<u8>,
    challenge: Seq<u8>,
) -> Result<Seq<u8>, Seq<char>>;

/// What a proof shows that its prover committed to, or the text of the error.
pub uninterp spec fn bbs_transcript(
    label: Seq<u8>,
    proof: Seq<u8>,
    count: usize,
    revealed: Seq<(usize, Seq<u8>)>,
) -> Result<Seq<u8>, Seq<char>>;

/// Whether a proof verifies for a challenge under a public key, or the text of the error.
pub uninterp spec fn bbs_proof_verifies(
    label: Seq<u8>,
    proof: Seq<u8>,
    count: usize,
    revealed: Seq<(usize, Seq<u8>)>,
    challenge: Seq<u8>,
    key: Seq<u8>,
) -> Result<(), Seq<char>>;

/// The views of a list of byte strings.
pub open spec fn byte_views(v: Seq<Vec<u8>>) -> Seq<Seq<u8>> {
    v.map_values(|b: Vec<u8>| b@)
}

/// The views of a list of indexed byte strings.
pub open spec fn indexed_views(v: Seq<(usize, Vec<u8>)>) -> Seq<(usize, Seq<u8>)> {
    v.map_values(|p: (usize, Vec<u8>)| (p.0, p.1@))
}

/// The revealed messages with their indices.
pub open spec fn shown(messages: Seq<Seq<u8>>, revealed: Seq<usize>) -> Seq<(usize, Seq<u8>)> {
    revealed.map_values(|i: usize| (i, messages[i as int]))
}

/// `KeypairG2::generate_using_rng` with the operating system's randomness: a secret key and
/// its public key, which decodes.
#[verifier::external_body]
pub(crate) fn generate(label: &[u8]) -> (r: (Vec<u8>, Vec<u8>))
    ensures
        r.1@ == bbs_public(label@, r.0@),
        bbs_key_decodes(r.1@) is Ok,
{
    let params = SignatureParamsG1::<Bls12_381>::new::<Blake2b>(label, 1);
    let pair = KeypairG2::<Bls12_381>::generate_using_rng(&mut OsRng, &params);
    let mut secret = Vec::new();
    let mut public = Vec::new();
    let _ = pair.secret_key.serialize(&mut secret);
    let _ = pair.public_key.serialize(&mut public);
    (secret, public)
}

/// `SignatureG1::new` with the operating system's randomness, followed by
/// `SignatureG1::verify`: a signature that verifies under the secret's public key.
#[verifier::external_body]
pub(crate) fn sign(label: &[u8], secret: &[u8], messages: &Vec<Vec<u8>>) -> (r: Result<
    Vec<u8>,
    String,
>)
    requires
        1 <= messages@.len() <= MAX_MESSAGES,
    ensures
        r is Ok ==> bbs_signed(
            label@,
            bbs_public(label@, secret@),
            byte_views(messages@),
            r->Ok_0@,
        ),
{
    let sk = SecretKey::<Fr>::deserialize(secret).map_err(|e| format!("{e:?}"))?;
    let m: Vec<Fr> = messages.iter().map(|d| Fr::from_le_bytes_mod_order(d)).collect();
    let params = SignatureParamsG1::new::<Blake2b>(label, m.len());
    let pk = PublicKeyG2::<Bls12_381>::generate_using_secret_key(&sk, &params);
    let s = SignatureG1::new(&mut OsRng, &m, &sk, &params).map_err(|e| format!("{e:?}"))?;
    s.verify(&m, &pk, &params).map_err(|e| format!("{e:?}"))?;
    let mut out = Vec::new();
    s.serialize(&mut out).map_err(|e| format!("{e:?}"))?;
    Ok(out)
}

/// `PublicKeyG2::deserialize`: a function of the bytes.
#[verifier::external_body]
pub(crate) fn check_key(key: &[u8]) -> (r: Result<(), String>)
    ensures
        match r {
            Ok(_) => bbs_key_decodes(key@) is Ok,
            Err(e) => bbs_key_decodes(key@) == Err::<(), Seq<char>>(e@),
        },
{
    PublicKeyG2::<Bls12_381>::deserialize(key).map(|_| ()).map_err(|e| format!("{e:?}"))
}

/// `PoKOfSignatureG1Protocol::init`, drawing on `StdRng` from the seed, followed by
/// `challenge_contribution`: what the prover commits to, a function of the arguments.
#[verifier::external_body]
pub(crate) fn commit(
    label: &[u8],
    signature: &[u8],
    messages: &Vec<Vec<u8>>,
    revealed: &Vec<usize>,
    seed: [u8; 32],
) -> (r: Result<Vec<u8>, String>)
    requires
        1 <= messages@.len() <= MAX_MESSAGES,
        forall|i: int| 0 <= i < revealed@.len() ==> (#[trigger] revealed@[i]) < messages@.len(),
    ensures
        match r {
            Ok(t) => bbs_commitment(
                label@,
                signature@,
                byte_views(messages@),
                revealed@,
                seed@,
            ) == Ok::<Seq<u8>, Seq<char>>(t@),
            Err(e) => bbs_commitment(
                label@,
                signature@,
                byte_views(messages@),
                revealed@,
                seed@,
            ) == Err::<Seq<u8>, Seq<char>>(e@),
        },
{
    let m: Vec<Fr> = messages.iter().map(|d| Fr::from_le_bytes_mod_order(d)).collect();
    let params = SignatureParamsG1::new::<Blake2b>(label, m.len());
    let p = PoKOfSignatureG1Protocol::init(
        &mut StdRng::from_seed(seed),
        &SignatureG1::<Bls12_381>::deserialize(signature).map_err(|e| format!("{e:?}"))?,
        &params,
        &m,
        BTreeMap::new(),
        revealed.iter().copied().collect(),
    ).map_err(|e| format!("{e:?}"))?;
    let mut out = Vec::new();
    p.challenge_contribution(
        &revealed.iter().map(|i| (*i, m[*i])).collect(), &params, &mut out,
    ).map_err(|e| format!("{e:?}"))?;
    Ok(out)
}

/// `PoKOfSignatureG1Protocol::init`, drawing on `StdRng` from the seed, followed by
/// `gen_proof`: the proof, a function of the arguments. Where the signature verifies, so does
/// the proof for this challenge, and it shows what [`commit`] gave for the same arguments.
#[verifier::external_body]
pub(crate) fn prove(
    label: &[u8],
    signature: &[u8],
    messages: &Vec<Vec<u8>>,
    revealed: &Vec<usize>,
    seed: [u8; 32],
    challenge: &[u8],
) -> (r: Result<Vec<u8>, String>)
    requires
        1 <= messages@.len() <= MAX_MESSAGES,
        forall|i: int| 0 <= i < revealed@.len() ==> (#[trigger] revealed@[i]) < messages@.len(),
    ensures
        match r {
            Ok(t) => bbs_proof(
                label@,
                signature@,
                byte_views(messages@),
                revealed@,
                seed@,
                challenge@,
            ) == Ok::<Seq<u8>, Seq<char>>(t@),
            Err(e) => bbs_proof(
                label@,
                signature@,
                byte_views(messages@),
                revealed@,
                seed@,
                challenge@,
            ) == Err::<Seq<u8>, Seq<char>>(e@),
        },
        forall|key: Seq<u8>|
            r is Ok && #[trigger] bbs_signed(label@, key, byte_views(messages@), signature@) ==> {
                let open = shown(byte_views(messages@), revealed@);
                let n = messages@.len() as usize;
                &&& bbs_transcript(label@, r->Ok_0@, n, open) == bbs_commitment(
                    label@,
                    signature@,
                    byte_views(messages@),
                    revealed@,
                    seed@,
                )
                &&& bbs_proof_verifies(label@, r->Ok_0@, n, open, challenge@, key) is Ok
            },
{
    let m: Vec<Fr> = messages.iter().map(|d| Fr::from_le_bytes_mod_order(d)).collect();
    let params = SignatureParamsG1::new::<Blake2b>(label, m.len());
    let p = PoKOfSignatureG1Protocol::init(
        &mut StdRng::from_seed(seed),
        &SignatureG1::<Bls12_381>::deserialize(signature).map_err(|e| format!("{e:?}"))?,
        &params,
        &m,
        BTreeMap::new(),
        revealed.iter().copied().collect(),
    ).map_err(|e| format!("{e:?}"))?;
    let p = p.gen_proof(&Fr::from_le_bytes_mod_order(challenge)).map_err(|e| format!("{e:?}"))?;
    let mut out = Vec::new();
    p.serialize(&mut out).map_err(|e| format!("{e:?}"))?;
    Ok(out)
}

/// `PoKOfSignatureG1Proof::challenge_contribution`: what the prover committed to, a function
/// of the arguments. It panics on an index beyond the count, and on a count of zero.
#[verifier::external_body]
pub(crate) fn transcript(
    label: &[u8],
    proof: &[u8],
    count: usize,
    revealed: &Vec<(usize, Vec<u8>)>,
) -> (r: Result<Vec<u8>, String>)
    requires
        1 <= count <= MAX_MESSAGES,
        forall|i: int| 0 <= i < revealed@.len() ==> (#[trigger] revealed@[i]).0 < count,
    ensures
        match r {
            Ok(t) => bbs_transcript(label@, proof@, count, indexed_views(revealed@)) == Ok::<
                Seq<u8>,
                Seq<char>,
            >(t@),
            Err(e) => bbs_transcript(label@, proof@, count, indexed_views(revealed@)) == Err::<
                Seq<u8>,
                Seq<char>,
            >(e@),
        },
{
    let p = PoKOfSignatureG1Proof::<Bls12_381>::deserialize(proof);
    let p = p.map_err(|e| format!("{e:?}"))?;
    let params = SignatureParamsG1::<Bls12_381>::new::<Blake2b>(label, count);
    let pairs = revealed.iter().map(|(i, d)| (*i, Fr::from_le_bytes_mod_order(d)));
    let pairs: BTreeMap<usize, Fr> = pairs.collect();
    let mut out = Vec::new();
    p.challenge_contribution(&pairs, &params, &mut out).map_err(|e| format!("{e:?}"))?;
    Ok(out)
}

/// `PoKOfSignatureG1Proof::verify`: a function of the arguments. It panics on a count of zero.
#[verifier::external_body]
pub(crate) fn verify(
    label: &[u8],
    proof: &[u8],
    count: usize,
    revealed: &Vec<(usize, Vec<u8>)>,
    challenge: &[u8],
    key: &[u8],
) -> (r: Result<(), String>)
    requires
        1 <= count <= MAX_MESSAGES,
        forall|i: int| 0 <= i < revealed@.len() ==> (#[trigger] revealed@[i]).0 < count,
    ensures
        match r {
            Ok(_) => bbs_proof_verifies(
                label@,
                proof@,
                count,
                indexed_views(revealed@),
                challenge@,
                key@,
            ) is Ok,
            Err(e) => bbs_proof_verifies(
                label@,
                proof@,
                count,
                indexed_views(revealed@),
                challenge@,
                key@,
            ) == Err::<(), Seq<char>>(e@),
        },
{
    let p = PoKOfSignatureG1Proof::<Bls12_381>::deserialize(proof);
    let p = p.map_err(|e| format!("{e:?}"))?;
    let pk = PublicKeyG2::<Bls12_381>::deserialize(key).map_err(|e| format!("{e:?}"))?;
    let params = SignatureParamsG1::<Bls12_381>::new::<Blake2b>(label, count);
    let pairs = revealed.iter().map(|(i, d)| (*i, Fr::from_le_bytes_mod_order(d)));
    let pairs: BTreeMap<usize, Fr> = pairs.collect();
    let c = Fr::from_le_bytes_mod_order(challenge);
    p.verify(&pairs, &c, &pk, &params).map_err(|e| format!("{e:?}"))
}

} // verus!
