//! The error type of the crate.

use vstd::prelude::*;
use vstd::string::*;
use crate::text;

verus! {

/// All errors that the crate's operations return.
#[derive(Debug)]
#[non_exhaustive]
pub enum AgentCredsError {
    /// DID method is not supported by this build.
    UnsupportedDidMethod {
        /// The unsupported DID method string.
        method: String,
    },
    /// Resolver is required for this DID method but none was provided.
    ResolverRequired {
        /// The DID method that requires a resolver.
        method: String,
    },
    /// A signature made with the key of a DID does not verify.
    InvalidDidSignature {
        /// Human-readable reason the signature check failed.
        reason: String,
    },
    /// DID could not be resolved (not found or network error).
    DidResolutionFailed {
        /// The DID that could not be resolved.
        did: String,
        /// Human-readable resolution failure reason.
        reason: String,
    },
    /// Key material is malformed or wrong length.
    InvalidKeyMaterial {
        /// Human-readable reason the key material is invalid.
        reason: String,
    },
    /// Verifiable Credential proof is cryptographically invalid.
    InvalidVcProof {
        /// Human-readable reason the proof is invalid.
        reason: String,
    },
    /// Credential has expired.
    CredentialExpired {
        /// RFC 3339 timestamp at which the credential expired.
        expired_at: String,
    },
    /// Credential has been revoked.
    CredentialRevoked {
        /// The credential ID that was revoked.
        credential_id: String,
    },
    /// Credential issuer DID does not match the trust anchor.
    IssuerMismatch {
        /// The DID of the expected issuer.
        expected: String,
        /// The DID of the actual issuer found in the credential.
        got: String,
    },
    /// Credential claims are malformed or missing required fields.
    MalformedClaims {
        /// Human-readable reason the claims are invalid.
        reason: String,
    },
    /// Attempted to widen scope during attenuation.
    ScopeWideningAttempt {
        /// The capability that was illegally added.
        capability: String,
    },
    /// Delegation depth limit exceeded.
    DelegationDepthExceeded {
        /// The attempted delegation depth.
        depth: u32,
        /// The maximum allowed delegation depth.
        max: u32,
    },
    /// Token has expired (TTL elapsed).
    TokenExpired {
        /// Seconds elapsed since the token expired.
        secs_ago: i64,
    },
    /// Biscuit token signature is invalid.
    InvalidBiscuitSignature {
        /// Human-readable reason the signature is invalid.
        reason: String,
    },
    /// Requested action is not permitted by the token's Datalog policy.
    ActionDenied {
        /// The action that was denied.
        action: String,
        /// Human-readable policy denial reason.
        reason: String,
    },
    /// Token root public key does not match the issuing trust anchor.
    RootKeyMismatch,
    /// Proof-of-possession verification failed (bad signature, stale or
    /// mismatched challenge, or the proof is not bound to this token).
    ProofOfPossessionFailed {
        /// Human-readable reason the proof of possession was rejected.
        reason: String,
    },
    /// SPIFFE JWT-SVID validation failed (bad signature, expired, malformed,
    /// audience mismatch, or an untrusted issuing key).
    SvidValidationFailed {
        /// Human-readable reason the SVID was rejected.
        reason: String,
    },
    /// An OIDC ID token failed validation.
    OidcValidationFailed {
        /// Human-readable reason the token was rejected.
        reason: String,
    },
    /// The human principal a delegation token is bound to does not match the one
    /// named by the credential it is rooted in. A token that disagrees with the
    /// request being authorized gives [`AgentCredsError::ActingForMismatch`].
    PrincipalMismatch {
        /// The principal DID the credential authorizes.
        expected: String,
        /// The principal DID the token is actually bound to.
        got: String,
    },
    /// The request being authorized does not assert the principal the presented
    /// token is bound to: either it asserts nothing, or it asserts a different one.
    ActingForMismatch {
        /// The principal DID the presented token is bound to.
        required: String,
        /// The principal DID the request asserted, or `None` if it asserted none.
        asserted: Option<String>,
    },
    /// A capability or resource was requested that the human principal never
    /// consented to.
    ConsentViolation {
        /// The tool or resource that exceeds the principal's consented authority.
        capability: String,
    },
    /// Revocation list index is out of bounds.
    RevocationIndexOutOfBounds {
        /// The index that was out of range.
        index: u64,
        /// The total size of the revocation list.
        size: u64,
    },
    /// Revocation list signature is invalid.
    InvalidRevocationListSignature,
    /// Revocation list is authentic, but its signed state is older than the
    /// relying party's configured bound.
    RevocationListStale {
        /// RFC 3339 timestamp of the list's signed `updated` field.
        updated: String,
        /// Age of the signed state at check time, in seconds.
        age_secs: i64,
        /// The relying party's configured maximum age, in seconds.
        max_age_secs: i64,
    },
    /// JSON (de)serialization failed.
    Json(String),
    /// CBOR (de)serialization failed.
    Cbor(String),
    /// Base64 decode failed.
    Base64(String),
    /// A cryptographic operation failed (generic - details in reason).
    CryptoError {
        /// Human-readable reason the cryptographic operation failed.
        reason: String,
    },
    /// RNG failed to produce entropy.
    EntropyError,
    /// A required field was missing from an input.
    MissingField {
        /// The name of the missing field.
        field: &'static str,
    },
    /// An input value was outside acceptable bounds.
    OutOfBounds {
        /// The name of the out-of-bounds field.
        field: &'static str,
        /// Human-readable detail describing the constraint violation.
        detail: String,
    },
}

/// What an error says: the variant and its fields as mathematical values.
#[verifier::ext_equal]
pub enum ErrorView {
    UnsupportedDidMethod { method: Seq<char> },
    ResolverRequired { method: Seq<char> },
    InvalidDidSignature { reason: Seq<char> },
    DidResolutionFailed { did: Seq<char>, reason: Seq<char> },
    InvalidKeyMaterial { reason: Seq<char> },
    InvalidVcProof { reason: Seq<char> },
    CredentialExpired { expired_at: Seq<char> },
    CredentialRevoked { credential_id: Seq<char> },
    IssuerMismatch { expected: Seq<char>, got: Seq<char> },
    MalformedClaims { reason: Seq<char> },
    ScopeWideningAttempt { capability: Seq<char> },
    DelegationDepthExceeded { depth: u32, max: u32 },
    TokenExpired { secs_ago: i64 },
    InvalidBiscuitSignature { reason: Seq<char> },
    ActionDenied { action: Seq<char>, reason: Seq<char> },
    RootKeyMismatch,
    ProofOfPossessionFailed { reason: Seq<char> },
    SvidValidationFailed { reason: Seq<char> },
    OidcValidationFailed { reason: Seq<char> },
    PrincipalMismatch { expected: Seq<char>, got: Seq<char> },
    ActingForMismatch { required: Seq<char>, asserted: Option<Seq<char>> },
    ConsentViolation { capability: Seq<char> },
    RevocationIndexOutOfBounds { index: u64, size: u64 },
    InvalidRevocationListSignature,
    RevocationListStale { updated: Seq<char>, age_secs: i64, max_age_secs: i64 },
    Json(Seq<char>),
    Cbor(Seq<char>),
    Base64(Seq<char>),
    CryptoError { reason: Seq<char> },
    EntropyError,
    MissingField { field: Seq<char> },
    OutOfBounds { field: Seq<char>, detail: Seq<char> },
}

impl View for AgentCredsError {
    type V = ErrorView;

    open spec fn view(&self) -> ErrorView {
        match *self {
            AgentCredsError::UnsupportedDidMethod { method } => ErrorView::UnsupportedDidMethod {
                method: method@,
            },
            AgentCredsError::ResolverRequired { method } => ErrorView::ResolverRequired {
                method: method@,
            },
            AgentCredsError::InvalidDidSignature { reason } => ErrorView::InvalidDidSignature {
                reason: reason@,
            },
            AgentCredsError::DidResolutionFailed { did, reason } => ErrorView::DidResolutionFailed {
                did: did@,
                reason: reason@,
            },
            AgentCredsError::InvalidKeyMaterial { reason } => ErrorView::InvalidKeyMaterial {
                reason: reason@,
            },
            AgentCredsError::InvalidVcProof { reason } => ErrorView::InvalidVcProof {
                reason: reason@,
            },
            AgentCredsError::CredentialExpired { expired_at } => ErrorView::CredentialExpired {
                expired_at: expired_at@,
            },
            AgentCredsError::CredentialRevoked { credential_id } => ErrorView::CredentialRevoked {
                credential_id: credential_id@,
            },
            AgentCredsError::IssuerMismatch { expected, got } => ErrorView::IssuerMismatch {
                expected: expected@,
                got: got@,
            },
            AgentCredsError::MalformedClaims { reason } => ErrorView::MalformedClaims {
                reason: reason@,
            },
            AgentCredsError::ScopeWideningAttempt { capability } => ErrorView::ScopeWideningAttempt {
                capability: capability@,
            },
            AgentCredsError::DelegationDepthExceeded { depth, max } => ErrorView::DelegationDepthExceeded {
                depth,
                max,
            },
            AgentCredsError::TokenExpired { secs_ago } => ErrorView::TokenExpired {
                secs_ago,
            },
            AgentCredsError::InvalidBiscuitSignature { reason } => ErrorView::InvalidBiscuitSignature {
                reason: reason@,
            },
            AgentCredsError::ActionDenied { action, reason } => ErrorView::ActionDenied {
                action: action@,
                reason: reason@,
            },
            AgentCredsError::RootKeyMismatch => ErrorView::RootKeyMismatch,
            AgentCredsError::ProofOfPossessionFailed { reason } => ErrorView::ProofOfPossessionFailed {
                reason: reason@,
            },
            AgentCredsError::SvidValidationFailed { reason } => ErrorView::SvidValidationFailed {
                reason: reason@,
            },
            AgentCredsError::OidcValidationFailed { reason } => ErrorView::OidcValidationFailed {
                reason: reason@,
            },
            AgentCredsError::PrincipalMismatch { expected, got } => ErrorView::PrincipalMismatch {
                expected: expected@,
                got: got@,
            },
            AgentCredsError::ActingForMismatch { required, asserted } => ErrorView::ActingForMismatch {
                required: required@,
                asserted: text::opt_view(asserted),
            },
            AgentCredsError::ConsentViolation { capability } => ErrorView::ConsentViolation {
                capability: capability@,
            },
            AgentCredsError::RevocationIndexOutOfBounds { index, size } => ErrorView::RevocationIndexOutOfBounds {
                index,
                size,
            },
            AgentCredsError::InvalidRevocationListSignature => ErrorView::InvalidRevocationListSignature,
            AgentCredsError::RevocationListStale { updated, age_secs, max_age_secs } => ErrorView::RevocationListStale {
                updated: updated@,
                age_secs,
                max_age_secs,
            },
            AgentCredsError::Json(e) => ErrorView::Json(e@),
            AgentCredsError::Cbor(e) => ErrorView::Cbor(e@),
            AgentCredsError::Base64(e) => ErrorView::Base64(e@),
            AgentCredsError::CryptoError { reason } => ErrorView::CryptoError {
                reason: reason@,
            },
            AgentCredsError::EntropyError => ErrorView::EntropyError,
            AgentCredsError::MissingField { field } => ErrorView::MissingField {
                field: field@,
            },
            AgentCredsError::OutOfBounds { field, detail } => ErrorView::OutOfBounds {
                field: field@,
                detail: detail@,
            },
        }
    }
}

/// The message of an error.
pub open spec fn error_text(e: ErrorView) -> Seq<char> {
    match e {
        ErrorView::UnsupportedDidMethod { method } => "unsupported DID method: "@ + method,
        ErrorView::ResolverRequired { method } => "resolver required for DID method "@ + method,
        ErrorView::InvalidDidSignature { reason } => "DID document signature invalid: "@ + reason,
        ErrorView::DidResolutionFailed { did, reason } => "DID resolution failed for "@ + did + ": "@ + reason,
        ErrorView::InvalidKeyMaterial { reason } => "invalid key material: "@ + reason,
        ErrorView::InvalidVcProof { reason } => "VC proof verification failed: "@ + reason,
        ErrorView::CredentialExpired { expired_at } => "credential expired at "@ + expired_at,
        ErrorView::CredentialRevoked { credential_id } => "credential "@ + credential_id + " has been revoked"@,
        ErrorView::IssuerMismatch { expected, got } => "issuer mismatch: expected "@ + expected + ", got "@ + got,
        ErrorView::MalformedClaims { reason } => "malformed credential claims: "@ + reason,
        ErrorView::ScopeWideningAttempt { capability } => "scope widening attempt: '"@ + capability + "' is not present in parent token"@,
        ErrorView::DelegationDepthExceeded { depth, max } => "delegation depth "@ + text::decimal(depth as nat) + " exceeds maximum "@ + text::decimal(max as nat),
        ErrorView::TokenExpired { secs_ago } => "delegation token expired "@ + text::decimal_int(secs_ago as int) + "s ago"@,
        ErrorView::InvalidBiscuitSignature { reason } => "biscuit signature invalid: "@ + reason,
        ErrorView::ActionDenied { action, reason } => "action '"@ + action + "' denied by policy: "@ + reason,
        ErrorView::RootKeyMismatch => "token root key mismatch"@,
        ErrorView::ProofOfPossessionFailed { reason } => "proof of possession failed: "@ + reason,
        ErrorView::SvidValidationFailed { reason } => "SVID validation failed: "@ + reason,
        ErrorView::OidcValidationFailed { reason } => "OIDC token validation failed: "@ + reason,
        ErrorView::PrincipalMismatch { expected, got } => "principal mismatch: token bound to '"@ + got + "', credential authorizes '"@ + expected + "'"@,
        ErrorView::ActingForMismatch { required, asserted } => "acting-for mismatch: the request asserts principal '"@ + asserted_text(asserted) + "', but the token is bound to '"@ + required + "' - `acting_for` must come from the relying party's own verified session"@,
        ErrorView::ConsentViolation { capability } => "consent violation: '"@ + capability + "' was not consented to by the authorizing principal"@,
        ErrorView::RevocationIndexOutOfBounds { index, size } => "revocation index "@ + text::decimal(index as nat) + " out of bounds (list size: "@ + text::decimal(size as nat) + ")"@,
        ErrorView::InvalidRevocationListSignature => "revocation list signature invalid"@,
        ErrorView::RevocationListStale { updated, age_secs, max_age_secs } => "revocation list stale: signed state is "@ + text::decimal_int(age_secs as int) + "s old (updated "@ + updated + "), exceeds configured max age "@ + text::decimal_int(max_age_secs as int) + "s"@,
        ErrorView::Json(e0) => "JSON error: "@ + e0,
        ErrorView::Cbor(e0) => "CBOR error: "@ + e0,
        ErrorView::Base64(e0) => "base64 decode error: "@ + e0,
        ErrorView::CryptoError { reason } => "cryptographic operation failed: "@ + reason,
        ErrorView::EntropyError => "entropy source unavailable"@,
        ErrorView::MissingField { field } => "missing required field: "@ + field,
        ErrorView::OutOfBounds { field, detail } => "value out of bounds for field '"@ + field + "': "@ + detail,
    }
}

/// How an asserted principal is written in a message: `<none>` where there is none.
pub open spec fn asserted_text(asserted: Option<Seq<char>>) -> Seq<char> {
    match asserted {
        Some(p) => p,
        None => "<none>"@,
    }
}

impl AgentCredsError {
    /// The human-readable message of this error.
    pub fn to_string(&self) -> (r: String)
        ensures
            r@ == error_text(self@),
    {
        match self {
            AgentCredsError::UnsupportedDidMethod { method } => {
                let mut s = "unsupported DID method: ".to_owned();
                s.append(method.as_str());
                s
            },
            AgentCredsError::ResolverRequired { method } => {
                let mut s = "resolver required for DID method ".to_owned();
                s.append(method.as_str());
                s
            },
            AgentCredsError::InvalidDidSignature { reason } => {
                let mut s = "DID document signature invalid: ".to_owned();
                s.append(reason.as_str());
                s
            },
            AgentCredsError::DidResolutionFailed { did, reason } => {
                let mut s = "DID resolution failed for ".to_owned();
                s.append(did.as_str());
                s.append(": ");
                s.append(reason.as_str());
                s
            },
            AgentCredsError::InvalidKeyMaterial { reason } => {
                let mut s = "invalid key material: ".to_owned();
                s.append(reason.as_str());
                s
            },
            AgentCredsError::InvalidVcProof { reason } => {
                let mut s = "VC proof verification failed: ".to_owned();
                s.append(reason.as_str());
                s
            },
            AgentCredsError::CredentialExpired { expired_at } => {
                let mut s = "credential expired at ".to_owned();
                s.append(expired_at.as_str());
                s
            },
            AgentCredsError::CredentialRevoked { credential_id } => {
                let mut s = "credential ".to_owned();
                s.append(credential_id.as_str());
                s.append(" has been revoked");
                s
            },
            AgentCredsError::IssuerMismatch { expected, got } => {
                let mut s = "issuer mismatch: expected ".to_owned();
                s.append(expected.as_str());
                s.append(", got ");
                s.append(got.as_str());
                s
            },
            AgentCredsError::MalformedClaims { reason } => {
                let mut s = "malformed credential claims: ".to_owned();
                s.append(reason.as_str());
                s
            },
            AgentCredsError::ScopeWideningAttempt { capability } => {
                let mut s = "scope widening attempt: '".to_owned();
                s.append(capability.as_str());
                s.append("' is not present in parent token");
                s
            },
            AgentCredsError::DelegationDepthExceeded { depth, max } => {
                let mut s = "delegation depth ".to_owned();
                s.append(text::u64_text(*depth as u64).as_str());
                s.append(" exceeds maximum ");
                s.append(text::u64_text(*max as u64).as_str());
                s
            },
            AgentCredsError::TokenExpired { secs_ago } => {
                let mut s = "delegation token expired ".to_owned();
                s.append(text::i64_text(*secs_ago).as_str());
                s.append("s ago");
                s
            },
            AgentCredsError::InvalidBiscuitSignature { reason } => {
                let mut s = "biscuit signature invalid: ".to_owned();
                s.append(reason.as_str());
                s
            },
            AgentCredsError::ActionDenied { action, reason } => {
                let mut s = "action '".to_owned();
                s.append(action.as_str());
                s.append("' denied by policy: ");
                s.append(reason.as_str());
                s
            },
            AgentCredsError::RootKeyMismatch => "token root key mismatch".to_owned(),
            AgentCredsError::ProofOfPossessionFailed { reason } => {
                let mut s = "proof of possession failed: ".to_owned();
                s.append(reason.as_str());
                s
            },
            AgentCredsError::SvidValidationFailed { reason } => {
                let mut s = "SVID validation failed: ".to_owned();
                s.append(reason.as_str());
                s
            },
            AgentCredsError::OidcValidationFailed { reason } => {
                let mut s = "OIDC token validation failed: ".to_owned();
                s.append(reason.as_str());
                s
            },
            AgentCredsError::PrincipalMismatch { expected, got } => {
                let mut s = "principal mismatch: token bound to '".to_owned();
                s.append(got.as_str());
                s.append("', credential authorizes '");
                s.append(expected.as_str());
                s.append("'");
                s
            },
            AgentCredsError::ActingForMismatch { required, asserted } => {
                let mut s = "acting-for mismatch: the request asserts principal '".to_owned();
                match asserted {
                    Some(p) => s.append(p.as_str()),
                    None => s.append("<none>"),
                }
                s.append("', but the token is bound to '");
                s.append(required.as_str());
                s.append("' - `acting_for` must come from the relying party's own verified session");
                s
            },
            AgentCredsError::ConsentViolation { capability } => {
                let mut s = "consent violation: '".to_owned();
                s.append(capability.as_str());
                s.append("' was not consented to by the authorizing principal");
                s
            },
            AgentCredsError::RevocationIndexOutOfBounds { index, size } => {
                let mut s = "revocation index ".to_owned();
                s.append(text::u64_text(*index).as_str());
                s.append(" out of bounds (list size: ");
                s.append(text::u64_text(*size).as_str());
                s.append(")");
                s
            },
            AgentCredsError::InvalidRevocationListSignature => "revocation list signature invalid".to_owned(),
            AgentCredsError::RevocationListStale { updated, age_secs, max_age_secs } => {
                let mut s = "revocation list stale: signed state is ".to_owned();
                s.append(text::i64_text(*age_secs).as_str());
                s.append("s old (updated ");
                s.append(updated.as_str());
                s.append("), exceeds configured max age ");
                s.append(text::i64_text(*max_age_secs).as_str());
                s.append("s");
                s
            },
            AgentCredsError::Json(e0) => {
                let mut s = "JSON error: ".to_owned();
                s.append(e0.as_str());
                s
            },
            AgentCredsError::Cbor(e0) => {
                let mut s = "CBOR error: ".to_owned();
                s.append(e0.as_str());
                s
            },
            AgentCredsError::Base64(e0) => {
                let mut s = "base64 decode error: ".to_owned();
                s.append(e0.as_str());
                s
            },
            AgentCredsError::CryptoError { reason } => {
                let mut s = "cryptographic operation failed: ".to_owned();
                s.append(reason.as_str());
                s
            },
            AgentCredsError::EntropyError => "entropy source unavailable".to_owned(),
            AgentCredsError::MissingField { field } => {
                let mut s = "missing required field: ".to_owned();
                s.append(field);
                s
            },
            AgentCredsError::OutOfBounds { field, detail } => {
                let mut s = "value out of bounds for field '".to_owned();
                s.append(field);
                s.append("': ");
                s.append(detail.as_str());
                s
            },
        }
    }
}

/// Whether a text ends with another.
pub open spec fn ends(s: Seq<char>, suffix: Seq<char>) -> bool {
    suffix.len() <= s.len() && s.skip(s.len() - suffix.len()) == suffix
}

proof fn lemma_ends(front: Seq<char>, suffix: Seq<char>)
    ensures
        ends(front + suffix, suffix),
{
    assert((front + suffix).skip(front.len() as int) =~= suffix);
}

/// The text of an error says what it is about: one with a reason ends with the reason, and a denial
/// names the action in front of it.
pub proof fn an_error_text_gives_the_reason(e: ErrorView)
    ensures
        e matches ErrorView::InvalidVcProof { reason } ==> ends(error_text(e), reason),
        e matches ErrorView::InvalidBiscuitSignature { reason } ==> ends(error_text(e), reason),
        e matches ErrorView::InvalidKeyMaterial { reason } ==> ends(error_text(e), reason),
        e matches ErrorView::InvalidDidSignature { reason } ==> ends(error_text(e), reason),
        e matches ErrorView::MalformedClaims { reason } ==> ends(error_text(e), reason),
        e matches ErrorView::ProofOfPossessionFailed { reason } ==> ends(error_text(e), reason),
        e matches ErrorView::SvidValidationFailed { reason } ==> ends(error_text(e), reason),
        e matches ErrorView::OidcValidationFailed { reason } ==> ends(error_text(e), reason),
        e matches ErrorView::CryptoError { reason } ==> ends(error_text(e), reason),
        e matches ErrorView::ActionDenied { action, reason } ==> ends(error_text(e), reason)
            && text::begins(error_text(e), "action '"@ + action),
        e matches ErrorView::OutOfBounds { field, detail } ==> ends(error_text(e), detail)
            && text::begins(error_text(e), "value out of bounds for field '"@ + field),
        e matches ErrorView::DidResolutionFailed { did, reason } ==> ends(error_text(e), reason)
            && text::begins(error_text(e), "DID resolution failed for "@ + did),
        e matches ErrorView::IssuerMismatch { expected, got } ==> ends(error_text(e), got)
            && text::begins(error_text(e), "issuer mismatch: expected "@ + expected),
        e matches ErrorView::CredentialExpired { expired_at } ==> ends(error_text(e), expired_at),
        e matches ErrorView::MissingField { field } ==> ends(error_text(e), field),
        e matches ErrorView::UnsupportedDidMethod { method } ==> ends(error_text(e), method),
        e matches ErrorView::ResolverRequired { method } ==> ends(error_text(e), method),
        e matches ErrorView::CredentialRevoked { credential_id } ==> text::begins(
            error_text(e),
            "credential "@ + credential_id,
        ),
        e matches ErrorView::ScopeWideningAttempt { capability } ==> text::begins(
            error_text(e),
            "scope widening attempt: '"@ + capability,
        ),
        e matches ErrorView::ConsentViolation { capability } ==> text::begins(
            error_text(e),
            "consent violation: '"@ + capability,
        ),
        e matches ErrorView::TokenExpired { secs_ago } ==> text::begins(
            error_text(e),
            "delegation token expired "@ + text::decimal_int(secs_ago as int),
        ),
        e matches ErrorView::DelegationDepthExceeded { depth, max } ==> ends(
            error_text(e),
            text::decimal(max as nat),
        ) && text::begins(error_text(e), "delegation depth "@ + text::decimal(depth as nat)),
{
    let t = error_text(e);
    match e {
        ErrorView::InvalidVcProof { reason } => lemma_ends("VC proof verification failed: "@, reason),
        ErrorView::InvalidBiscuitSignature { reason } => lemma_ends(
            "biscuit signature invalid: "@,
            reason,
        ),
        ErrorView::InvalidKeyMaterial { reason } => lemma_ends("invalid key material: "@, reason),
        ErrorView::InvalidDidSignature { reason } => lemma_ends(
            "DID document signature invalid: "@,
            reason,
        ),
        ErrorView::MalformedClaims { reason } => lemma_ends(
            "malformed credential claims: "@,
            reason,
        ),
        ErrorView::ProofOfPossessionFailed { reason } => lemma_ends(
            "proof of possession failed: "@,
            reason,
        ),
        ErrorView::SvidValidationFailed { reason } => lemma_ends(
            "SVID validation failed: "@,
            reason,
        ),
        ErrorView::OidcValidationFailed { reason } => lemma_ends(
            "OIDC token validation failed: "@,
            reason,
        ),
        ErrorView::CryptoError { reason } => lemma_ends(
            "cryptographic operation failed: "@,
            reason,
        ),
        ErrorView::ActionDenied { action, reason } => {
            let p = "action '"@ + action;
            lemma_ends(p + "' denied by policy: "@, reason);
            assert(t.take(p.len() as int) =~= p);
        },
        ErrorView::OutOfBounds { field, detail } => {
            let p = "value out of bounds for field '"@ + field;
            lemma_ends(p + "': "@, detail);
            assert(t.take(p.len() as int) =~= p);
        },
        ErrorView::DidResolutionFailed { did, reason } => {
            let p = "DID resolution failed for "@ + did;
            lemma_ends(p + ": "@, reason);
            assert(t.take(p.len() as int) =~= p);
        },
        ErrorView::IssuerMismatch { expected, got } => {
            let p = "issuer mismatch: expected "@ + expected;
            lemma_ends(p + ", got "@, got);
            assert(t.take(p.len() as int) =~= p);
        },
        ErrorView::CredentialExpired { expired_at } => lemma_ends(
            "credential expired at "@,
            expired_at,
        ),
        ErrorView::MissingField { field } => lemma_ends("missing required field: "@, field),
        ErrorView::UnsupportedDidMethod { method } => lemma_ends(
            "unsupported DID method: "@,
            method,
        ),
        ErrorView::ResolverRequired { method } => lemma_ends(
            "resolver required for DID method "@,
            method,
        ),
        ErrorView::CredentialRevoked { credential_id } => {
            let p = "credential "@ + credential_id;
            assert(t.take(p.len() as int) =~= p);
        },
        ErrorView::ScopeWideningAttempt { capability } => {
            let p = "scope widening attempt: '"@ + capability;
            assert(t.take(p.len() as int) =~= p);
        },
        ErrorView::ConsentViolation { capability } => {
            let p = "consent violation: '"@ + capability;
            assert(t.take(p.len() as int) =~= p);
        },
        ErrorView::TokenExpired { secs_ago } => {
            let p = "delegation token expired "@ + text::decimal_int(secs_ago as int);
            assert(t.take(p.len() as int) =~= p);
        },
        ErrorView::DelegationDepthExceeded { depth, max } => {
            let p = "delegation depth "@ + text::decimal(depth as nat);
            lemma_ends(p + " exceeds maximum "@, text::decimal(max as nat));
            assert(t.take(p.len() as int) =~= p);
        },
        _ => {},
    }
}

} // verus!
