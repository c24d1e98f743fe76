//! The stable contract a wrapper for one credential standard builds against.
//!
//! Three ports issue, present and verify credentials without format knowledge at the call
//! site; two more map claims and issuers. Protocol, transport and the wire form of a
//! credential live in a layer above: it hands this one the text it wrote, or what it read.

use vstd::prelude::*;
use vstd::string::*;
use crate::did;
use crate::did::{AgentIdentity, KeyView, TrustAnchor};
use crate::error::{AgentCredsError, ErrorView};
use crate::json::Json;
use crate::signed;
use crate::time;
use crate::time::Timestamp;
use crate::vc;
use crate::vc::{
    CapabilityClaims, CapabilityCredential, CredentialFormat, CredentialStatus, CredentialView,
};

verus! {

// -- Requests and results -----------------------------------------------------------------------------

/// A verifier's challenge for holder-of-key: the presentation is bound to this `audience` and
/// `nonce`.
#[derive(Debug, Clone, Copy)]
pub struct KeyBindingChallenge<'a> {
    /// The verifier's identifier that the presentation is bound to.
    pub audience: &'a str,
    /// The verifier's freshness challenge.
    pub nonce: &'a str,
}

/// What a verifier asks a holder to present: which selectively-disclosable claims to reveal,
/// and an optional holder-of-key challenge.
///
/// `disclose` is honoured only by formats that *support* selective disclosure; a W3C credential
/// carries all its claims unconditionally. `key_binding` requires a holder-of-key-capable
/// format - requesting it against W3C is a hard error rather than a silent no-op.
#[derive(Debug, Clone)]
pub struct PresentationRequest<'a> {
    /// Names of selectively-disclosable claims the verifier is allowed to see.
    pub disclose: &'a [&'a str],
    /// Holder-of-key challenge, or `None` for a plain presentation.
    pub key_binding: Option<KeyBindingChallenge<'a>>,
}

impl<'a> PresentationRequest<'a> {
    /// A plain presentation: disclose the given claims, no holder binding.
    pub fn disclosing(disclose: &'a [&'a str]) -> (r: Self)
        ensures
            r.disclose == disclose,
            r.key_binding is None,
    {
        Self { disclose, key_binding: None }
    }

    /// A holder-bound presentation: disclose the given claims and prove control of the
    /// confirmation key against `audience`/`nonce`.
    pub fn bound(disclose: &'a [&'a str], audience: &'a str, nonce: &'a str) -> (r: Self)
        ensures
            r.disclose == disclose,
            r.key_binding is Some,
            r.key_binding->0.audience == audience,
            r.key_binding->0.nonce == nonce,
    {
        Self { disclose, key_binding: Some(KeyBindingChallenge { audience, nonce }) }
    }
}

/// The outcome of verifying a presented credential: the authenticated credential and whether a
/// holder-of-key binding was proved.
#[derive(Debug)]
pub struct VerifiedCredential {
    /// The credential, with its issuer signature authenticated.
    pub credential: CapabilityCredential,
    /// Whether the request carried a [`KeyBindingChallenge`] that was met.
    pub key_binding_verified: bool,
}

impl Clone for VerifiedCredential {
    fn clone(&self) -> (r: Self)
        ensures
            r.credential@ == self.credential@,
            r.key_binding_verified == self.key_binding_verified,
    {
        VerifiedCredential {
            credential: self.credential.clone(),
            key_binding_verified: self.key_binding_verified,
        }
    }
}

// -- The ports ----------------------------------------------------------------------------------------

/// Issue a capability credential in a target wire format.
pub trait CredentialIssuer {
    /// Mint a credential for `subject_did` in `format`, signed by `anchor`.
    fn issue_credential(
        &self,
        anchor: &TrustAnchor,
        subject_did: &str,
        claims: CapabilityClaims,
        status: Option<CredentialStatus>,
        format: CredentialFormat,
    ) -> Result<CapabilityCredential, AgentCredsError>;
}

/// Produce a wire-form presentation from a held credential.
pub trait CredentialPresenter {
    /// Build a presentation of `credential` for `request` by `holder`, where `wire` is the
    /// credential's own wire form.
    fn present_credential(
        &self,
        credential: &CapabilityCredential,
        holder: &AgentIdentity,
        request: &PresentationRequest,
        wire: String,
    ) -> Result<String, AgentCredsError>;
}

/// Verify a presented credential.
pub trait CredentialVerifier {
    /// Authenticate a presented credential, as it was read from its wire form, against `anchor`
    /// (issuer signature and, when `key_binding` is set, holder-of-key).
    fn verify_credential(
        &self,
        presented: Result<CapabilityCredential, AgentCredsError>,
        anchor: &TrustAnchor,
        key_binding: Option<KeyBindingChallenge>,
    ) -> Result<VerifiedCredential, AgentCredsError>;
}

/// Maps claim names and shapes onto a vendor's expected schema, and back. The default does no
/// remapping.
pub trait ClaimMap {
    /// Claims to the vendor's outward schema (issuance / presentation).
    fn map_out(&self, claims: &Json) -> (r: Json)
        default_ensures
            r@ == claims@,
    {
        claims.clone()
    }

    /// The vendor's inward schema to claims (verification).
    fn map_in(&self, claims: &Json) -> (r: Json)
        default_ensures
            r@ == claims@,
    {
        claims.clone()
    }
}

/// The identity claim map - no remapping.
#[derive(Debug, Clone, Copy)]
pub struct IdentityClaimMap;

impl Default for IdentityClaimMap {
    fn default() -> (r: Self) {
        IdentityClaimMap
    }
}

impl ClaimMap for IdentityClaimMap {

}

/// Resolves an issuer identifier - *as the vendor's protocol names it* - to the verifying
/// [`TrustAnchor`]. A verifier resolves the issuer here *before* verifying a credential.
pub trait TrustMap {
    /// Resolve an issuer identifier to the verifying anchor, or error if the issuer is not
    /// trusted.
    fn resolve_issuer(&self, issuer: &str) -> Result<TrustAnchor, AgentCredsError>;
}

/// The offline trust model across organisations: the issuer identifier *is* a `did:key`, so its
/// verifying key is self-certifying and needs no network round-trip.
#[derive(Debug, Clone, Copy)]
pub struct DidKeyTrust;

impl Default for DidKeyTrust {
    fn default() -> (r: Self) {
        DidKeyTrust
    }
}

impl TrustMap for DidKeyTrust {
    fn resolve_issuer(&self, issuer: &str) -> (r: Result<TrustAnchor, AgentCredsError>)
        ensures
            match (r, did::did_key_of(issuer@)) {
                (Ok(a), Ok(k)) => a.key() == k && a.did_text() == issuer@ && a.verify_only(),
                (Err(e), Err(v)) => e@ == v,
                _ => false,
            },
    {
        TrustAnchor::from_did_key(issuer)
    }
}

// -- The native implementation --------------------------------------------------------------------------

/// The native implementation of all three ports. A wrapper composes this with its own
/// [`TrustMap`]/[`ClaimMap`] and protocol envelope.
#[derive(Debug, Clone, Copy)]
pub struct NativeInterop;

impl Default for NativeInterop {
    fn default() -> (r: Self) {
        NativeInterop
    }
}

/// What presenting a credential gives: a W3C credential as it stands, unless a key binding is
/// asked for; an SD-JWT credential not at all.
pub open spec fn presentation_of(
    format: CredentialFormat,
    key_binding: bool,
    wire: Seq<char>,
) -> Result<Seq<char>, ErrorView> {
    match format {
        CredentialFormat::W3cLinkedData => if key_binding {
            Err(
                signed::bad_proof(
                    "W3C credentials have no holder-of-key binding; issue as SD-JWT VC to satisfy a key-binding challenge"@,
                ),
            )
        } else {
            Ok(wire)
        },
        CredentialFormat::SdJwtVc => Err(
            signed::bad_proof("presenting an SD-JWT VC requires the `sd-jwt` feature"@),
        ),
    }
}

/// What verifying a presented credential gives: the credential, where it was read, its issuer
/// is the anchor, its signature verifies, it has not expired and no key binding is asked for.
pub open spec fn presented_outcome(
    presented: Result<CredentialView, ErrorView>,
    anchor_did: Seq<char>,
    anchor_key: KeyView,
    key_binding: bool,
    now: int,
) -> Result<CredentialView, ErrorView> {
    match presented {
        Err(e) => Err(e),
        Ok(c) => match vc::credential_verifies(c, anchor_did, anchor_key, true, now) {
            Err(e) => Err(e),
            Ok(_) => if key_binding {
                Err(
                    signed::bad_proof(
                        "verifying a key-bound presentation requires the `sd-jwt` feature"@,
                    ),
                )
            } else {
                Ok(c)
            },
        },
    }
}

/// The view of what was read from a wire form.
pub open spec fn read_view(r: Result<CapabilityCredential, AgentCredsError>) -> Result<
    CredentialView,
    ErrorView,
> {
    match r {
        Ok(c) => Ok(c@),
        Err(e) => Err(e@),
    }
}

/// The view of a verified credential.
pub open spec fn verified_view(r: Result<VerifiedCredential, AgentCredsError>) -> Result<
    CredentialView,
    ErrorView,
> {
    match r {
        Ok(v) => Ok(v.credential@),
        Err(e) => Err(e@),
    }
}

impl CredentialIssuer for NativeInterop {
    fn issue_credential(
        &self,
        anchor: &TrustAnchor,
        subject_did: &str,
        claims: CapabilityClaims,
        status: Option<CredentialStatus>,
        format: CredentialFormat,
    ) -> (r: Result<CapabilityCredential, AgentCredsError>)
        ensures
            exists|now: int| #[trigger]
                vc::issue_outcome(*anchor, subject_did@, claims@, status, format, now, r),
    {
        CapabilityCredential::issue_at(
            anchor,
            subject_did,
            claims,
            status,
            format,
            Timestamp::now(),
        )
    }
}

impl CredentialPresenter for NativeInterop {
    fn present_credential(
        &self,
        credential: &CapabilityCredential,
        holder: &AgentIdentity,
        request: &PresentationRequest,
        wire: String,
    ) -> (r: Result<String, AgentCredsError>)
        ensures
            match r {
                Ok(s) => presentation_of(
                    credential@.format,
                    request.key_binding is Some,
                    wire@,
                ) == Ok::<Seq<char>, ErrorView>(s@),
                Err(e) => presentation_of(
                    credential@.format,
                    request.key_binding is Some,
                    wire@,
                ) == Err::<Seq<char>, ErrorView>(e@),
            },
    {
        match credential.format {
            // W3C carries every claim and has no holder-of-key mechanism: `disclose` is moot,
            // and a key-binding request is a capability mismatch, not a no-op.
            CredentialFormat::W3cLinkedData => {
                if request.key_binding.is_some() {
                    return Err(
                        signed::proof_error(
                            "W3C credentials have no holder-of-key binding; issue as SD-JWT VC to satisfy a key-binding challenge".to_owned(),
                        ),
                    );
                }
                Ok(wire)
            },
            CredentialFormat::SdJwtVc => Err(
                signed::proof_error(
                    "presenting an SD-JWT VC requires the `sd-jwt` feature".to_owned(),
                ),
            ),
        }
    }
}

impl NativeInterop {
    /// Verify a presented credential at a given time.
    ///
    /// # Errors
    /// That of reading it; `IssuerMismatch`, `InvalidVcProof` or `CredentialExpired` where it
    /// does not verify; `InvalidVcProof` where a key binding is asked for.
    pub fn verify_credential_at(
        &self,
        presented: Result<CapabilityCredential, AgentCredsError>,
        anchor: &TrustAnchor,
        key_binding: Option<KeyBindingChallenge>,
        now: Timestamp,
    ) -> (r: Result<VerifiedCredential, AgentCredsError>)
        ensures
            verified_view(r) == presented_outcome(
                read_view(presented),
                anchor.did_text(),
                anchor.key(),
                key_binding is Some,
                now@,
            ),
            r is Ok ==> !r->Ok_0.key_binding_verified,
    {
        let credential = match presented {
            Ok(c) => c,
            Err(e) => {
                return Err(e);
            },
        };
        match credential.verify_at(anchor, true, now) {
            Ok(_) => {},
            Err(e) => {
                return Err(e);
            },
        }
        if key_binding.is_some() {
            return Err(
                signed::proof_error(
                    "verifying a key-bound presentation requires the `sd-jwt` feature".to_owned(),
                ),
            );
        }
        Ok(VerifiedCredential { credential, key_binding_verified: false })
    }
}

impl CredentialVerifier for NativeInterop {
    fn verify_credential(
        &self,
        presented: Result<CapabilityCredential, AgentCredsError>,
        anchor: &TrustAnchor,
        key_binding: Option<KeyBindingChallenge>,
    ) -> (r: Result<VerifiedCredential, AgentCredsError>)
        ensures
            exists|now: int|
                verified_view(r) == #[trigger] presented_outcome(
                    read_view(presented),
                    anchor.did_text(),
                    anchor.key(),
                    key_binding is Some,
                    now,
                ),
            r is Ok ==> !r->Ok_0.key_binding_verified,
    {
        let now = Timestamp::now();
        self.verify_credential_at(presented, anchor, key_binding, now)
    }
}

/// A credential that is issued, presented without a key binding and read back as it was
/// verifies until it expires.
pub proof fn an_issued_credential_is_verified(
    c: CredentialView,
    anchor_did: Seq<char>,
    anchor_key: KeyView,
    now: int,
)
    requires
        c.issuer == anchor_did,
        did::key_verifies(anchor_key, vc::credential_digest(c), c.proof_value) is Ok,
        now <= c.expiration_date,
    ensures
        presented_outcome(Ok(c), anchor_did, anchor_key, false, now) == Ok::<
            CredentialView,
            ErrorView,
        >(c),
{
}

/// A presented credential is accepted exactly where it was read, the anchor issued and signed it, it
/// has not expired, and no key binding is asked for; what comes out is the credential as presented.
pub proof fn an_accepted_presentation_is_the_anchors(
    presented: Result<CredentialView, ErrorView>,
    anchor_did: Seq<char>,
    anchor_key: KeyView,
    key_binding: bool,
    now: int,
)
    ensures
        ({
            let r = presented_outcome(presented, anchor_did, anchor_key, key_binding, now);
            &&& r is Ok <==> {
                &&& presented is Ok
                &&& presented->Ok_0.issuer == anchor_did
                &&& did::key_verifies(
                    anchor_key,
                    vc::credential_digest(presented->Ok_0),
                    presented->Ok_0.proof_value,
                ) is Ok
                &&& now <= presented->Ok_0.expiration_date
                &&& !key_binding
            }
            &&& r is Ok ==> r->Ok_0 == presented->Ok_0
            &&& presented is Err ==> r == presented
        }),
{
}

/// A credential is presented as it was carried exactly where it is a W3C one and no key binding is
/// asked for; every refusal is `InvalidVcProof`.
pub proof fn a_credential_is_presented_as_it_was_carried(
    format: CredentialFormat,
    key_binding: bool,
    wire: Seq<char>,
)
    ensures
        presentation_of(format, key_binding, wire) is Ok <==> format is W3cLinkedData
            && !key_binding,
        presentation_of(format, key_binding, wire) is Ok ==> presentation_of(
            format,
            key_binding,
            wire,
        )->Ok_0 == wire,
        presentation_of(format, key_binding, wire) is Err ==> presentation_of(
            format,
            key_binding,
            wire,
        )->Err_0 is InvalidVcProof,
{
}

} // verus!
