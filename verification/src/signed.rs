//! Signatures written as text, and documents signed by the trust anchor.

use vstd::prelude::*;
use vstd::string::*;
use crate::crypto;
use crate::did;
use crate::did::{KeyView, TrustAnchor};
use crate::error::{AgentCredsError, ErrorView};
use crate::text;
use crate::time::Timestamp;

verus! {

/// A proof failure with a reason.
pub open spec fn bad_proof(reason: Seq<char>) -> ErrorView {
    ErrorView::InvalidVcProof { reason }
}

/// A proof failure.
pub fn proof_error(reason: String) -> (r: AgentCredsError)
    ensures
        r@ == bad_proof(reason@),
{
    AgentCredsError::InvalidVcProof { reason }
}

/// A signature as text: lower-case hexadecimal.
pub fn encode_signature(signature: &[u8]) -> (r: String)
    ensures
        r@ == crypto::hex_text(signature@),
{
    crypto::hex_encode(signature)
}

/// The bytes of a signature text, or the error naming the artifact that carries it.
pub open spec fn decoded_signature(signature: Seq<char>, label: Seq<char>) -> Result<
    Seq<u8>,
    ErrorView,
> {
    if crypto::is_hex(signature) {
        Ok(crypto::hex_bytes(signature))
    } else {
        Err(bad_proof(label + " signature is not valid hex"@))
    }
}

/// Decodes a signature text.
///
/// # Errors
/// `InvalidVcProof` naming `label` where the text is not hexadecimal.
pub fn decode_signature(signature: &str, label: &str) -> (r: Result<Vec<u8>, AgentCredsError>)
    ensures
        match r {
            Ok(b) => decoded_signature(signature@, label@) == Ok::<Seq<u8>, ErrorView>(b@),
            Err(e) => decoded_signature(signature@, label@) == Err::<Seq<u8>, ErrorView>(e@),
        },
{
    match crypto::hex_decode(signature) {
        Ok(b) => Ok(b),
        Err(_) => {
            let mut reason = label.to_owned();
            reason.append(" signature is not valid hex");
            Err(proof_error(reason))
        },
    }
}

/// What checking an anchor-signed artifact gives: it must name the anchor as its issuer,
/// its signature must verify under the anchor's key, and it must not be past its expiry.
pub open spec fn anchor_signed(
    issuer_did: Seq<char>,
    digest: Seq<u8>,
    signature: Seq<char>,
    not_after: Option<int>,
    now: int,
    anchor_did: Seq<char>,
    anchor_key: KeyView,
    label: Seq<char>,
) -> Result<(), ErrorView> {
    if issuer_did != anchor_did {
        Err(bad_proof(label + " issuer is not the trust anchor"@))
    } else {
        match decoded_signature(signature, label) {
            Err(e) => Err(e),
            Ok(sig) => if did::key_verifies(anchor_key, digest, sig) is Err {
                Err(bad_proof(label + " signature does not verify"@))
            } else if not_after is Some && now > not_after->0 {
                Err(bad_proof(label + " has expired"@))
            } else {
                Ok(())
            },
        }
    }
}

/// The view of an optional instant.
pub open spec fn opt_time(t: Option<Timestamp>) -> Option<int> {
    match t {
        Some(x) => Some(x@),
        None => None,
    }
}

fn labelled(label: &str, what: &str) -> (r: AgentCredsError)
    ensures
        r@ == bad_proof(label@ + what@),
{
    let mut reason = label.to_owned();
    reason.append(what);
    proof_error(reason)
}

/// Checks an artifact that the trust anchor signed.
///
/// # Errors
/// `InvalidVcProof` on a wrong issuer, a bad signature, or expiry.
pub fn verify_anchor_signed(
    issuer_did: &str,
    digest: &[u8],
    signature: &str,
    not_after: Option<Timestamp>,
    now: Timestamp,
    anchor: &TrustAnchor,
    label: &str,
) -> (r: Result<(), AgentCredsError>)
    ensures
        did::unit_view(r) == anchor_signed(
            issuer_did@,
            digest@,
            signature@,
            opt_time(not_after),
            now@,
            anchor.did_text(),
            anchor.key(),
            label@,
        ),
{
    if !text::str_eq(issuer_did, anchor.did()) {
        return Err(labelled(label, " issuer is not the trust anchor"));
    }
    let sig = match decode_signature(signature, label) {
        Ok(s) => s,
        Err(e) => {
            return Err(e);
        },
    };
    if anchor.verify_signature(digest, sig.as_slice()).is_err() {
        return Err(labelled(label, " signature does not verify"));
    }
    if let Some(t) = not_after {
        if now.is_after(&t) {
            return Err(labelled(label, " has expired"));
        }
    }
    Ok(())
}

/// An artifact that names its anchor, carries the anchor's own signature and is not past
/// its expiry passes.
pub proof fn signed_artifact_verifies(
    anchor_did: Seq<char>,
    anchor_key: KeyView,
    digest: Seq<u8>,
    signature: Seq<u8>,
    not_after: Option<int>,
    now: int,
    label: Seq<char>,
)
    requires
        did::key_verifies(anchor_key, digest, signature) is Ok,
        not_after is Some ==> now <= not_after->0,
    ensures
        anchor_signed(
            anchor_did,
            digest,
            crypto::hex_text(signature),
            not_after,
            now,
            anchor_did,
            anchor_key,
            label,
        ) is Ok,
{
    crypto::lemma_hex_round_trip(signature);
}

// -- Signatures as Base64 text ----------------------------------------------------------------

/// The error for a signature that no text can hold.
pub open spec fn unencodable() -> ErrorView {
    ErrorView::CryptoError { reason: "signature is too long to encode"@ }
}

/// Whether a text is the Base64 of a signature that an anchor gave over a digest.
pub open spec fn signature_given(anchor: TrustAnchor, digest: Seq<u8>, signature: Seq<char>) -> bool {
    &&& crypto::base64_decoded(signature) is Ok
    &&& exists|sig: Result<Vec<u8>, AgentCredsError>|
        #[trigger] anchor.may_sign(digest, sig) && sig is Ok && sig->Ok_0@
            == crypto::base64_decoded(signature)->Ok_0 && signature == crypto::base64_text(
            sig->Ok_0@,
        )
    &&& anchor.in_software() ==> did::key_verifies(
        anchor.key(),
        digest,
        crypto::base64_decoded(signature)->Ok_0,
    ) is Ok
}

/// Whether an error is why there is no signature over a digest: an anchor's own, or that of
/// one that signs with more bytes than a text can hold.
pub open spec fn signature_refused(
    anchor: TrustAnchor,
    digest: Seq<u8>,
    e: AgentCredsError,
) -> bool {
    &&& anchor.may_sign(digest, Err(e)) || (e@ == unencodable() && exists|
        sig: Result<Vec<u8>, AgentCredsError>,
    |
        #[trigger] anchor.may_sign(digest, sig) && sig is Ok && sig->Ok_0@.len() > usize::MAX / 4)
    &&& !(anchor.in_software() && anchor.key().algorithm is Ed25519)
}

/// Signs a digest and writes the signature as Base64.
///
/// # Errors
/// If the anchor fails to sign, or signs with more bytes than a text can hold.
pub fn sign_base64(anchor: &TrustAnchor, digest: &[u8]) -> (r: Result<String, AgentCredsError>)
    ensures
        match r {
            Ok(s) => signature_given(*anchor, digest@, s@),
            Err(e) => signature_refused(*anchor, digest@, e),
        },
{
    let answer = anchor.sign(digest);
    let ghost given = answer;
    match answer {
        Ok(sig) => {
            assert(anchor.may_sign(digest@, given));
            if sig.len() > usize::MAX / 4 {
                return Err(
                    AgentCredsError::CryptoError {
                        reason: "signature is too long to encode".to_owned(),
                    },
                );
            }
            Ok(crypto::base64_encode(sig.as_slice()))
        },
        Err(e) => Err(e),
    }
}

/// What checking a Base64 signature over a digest gives; `failed` says that it does not verify.
pub open spec fn base64_signed(
    signature: Seq<char>,
    digest: Seq<u8>,
    anchor_key: KeyView,
    failed: Seq<char>,
) -> Result<(), ErrorView> {
    match crypto::base64_decoded(signature) {
        Err(e) => Err(bad_proof("signature base64: "@ + e)),
        Ok(sig) => if did::key_verifies(anchor_key, digest, sig) is Err {
            Err(bad_proof(failed))
        } else {
            Ok(())
        },
    }
}

/// Checks a Base64 signature over a digest.
///
/// # Errors
/// `InvalidVcProof` where the text is no Base64 or the signature does not verify.
pub fn verify_base64(signature: &str, digest: &[u8], anchor: &TrustAnchor, failed: &str) -> (r:
    Result<(), AgentCredsError>)
    ensures
        did::unit_view(r) == base64_signed(signature@, digest@, anchor.key(), failed@),
{
    let sig = match crypto::base64_decode(signature) {
        Ok(s) => s,
        Err(e) => {
            let mut reason = "signature base64: ".to_owned();
            reason.append(e.as_str());
            return Err(proof_error(reason));
        },
    };
    if anchor.verify_signature(digest, sig.as_slice()).is_err() {
        return Err(proof_error(failed.to_owned()));
    }
    Ok(())
}

// -- What a signature shows ---------------------------------------------------------------------

/// An artifact that is accepted comes from its anchor: it names the anchor as its issuer, it carries
/// the hex of a signature that verifies under the anchor's key over its digest, and it is not past
/// its end. An artifact of which all this holds is accepted.
pub proof fn an_accepted_artifact_is_the_anchors(
    issuer_did: Seq<char>,
    digest: Seq<u8>,
    signature: Seq<char>,
    not_after: Option<int>,
    now: int,
    anchor_did: Seq<char>,
    anchor_key: KeyView,
    label: Seq<char>,
)
    ensures
        anchor_signed(
            issuer_did,
            digest,
            signature,
            not_after,
            now,
            anchor_did,
            anchor_key,
            label,
        ) is Ok <==> {
            &&& issuer_did == anchor_did
            &&& crypto::is_hex(signature)
            &&& did::key_verifies(anchor_key, digest, crypto::hex_bytes(signature)) is Ok
            &&& not_after matches Some(end) ==> now <= end
        },
        ({
            let r = anchor_signed(
                issuer_did,
                digest,
                signature,
                not_after,
                now,
                anchor_did,
                anchor_key,
                label,
            );
            r is Err ==> r->Err_0 is InvalidVcProof
        }),
{
}

/// A Base64 signature is accepted where it decodes to one that verifies under the anchor's key over
/// the digest, and nowhere else; every refusal is `InvalidVcProof`.
pub proof fn an_accepted_base64_signature_verifies(
    signature: Seq<char>,
    digest: Seq<u8>,
    anchor_key: KeyView,
    failed: Seq<char>,
)
    ensures
        base64_signed(signature, digest, anchor_key, failed) is Ok <==> {
            &&& crypto::base64_decoded(signature) is Ok
            &&& did::key_verifies(
                anchor_key,
                digest,
                crypto::base64_decoded(signature)->Ok_0,
            ) is Ok
        },
        base64_signed(signature, digest, anchor_key, failed) is Err ==> base64_signed(
            signature,
            digest,
            anchor_key,
            failed,
        )->Err_0 is InvalidVcProof,
{
}

/// A signature text stands for the bytes it was written from: what decoding gives back of the hex of
/// a signature is that signature.
pub proof fn a_written_signature_is_read_back(signature: Seq<u8>, label: Seq<char>)
    ensures
        decoded_signature(crypto::hex_text(signature), label) == Ok::<Seq<u8>, ErrorView>(signature),
{
    crypto::lemma_hex_round_trip(signature);
}

} // verus!
