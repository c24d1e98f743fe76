//! The stream of authorization decision records.
//!
//! Each decision a relying party makes can be recorded: who was allowed to do what, the
//! outcome, and notable signals. A stream keeps a tamper-evident hash chain over them and can
//! be checkpointed with an anchor's signature, so that a consumer can prove that no record
//! was dropped, reordered or forged.

pub mod stream;

pub use crate::adr::stream::{replay, AdrCheckpoint, AdrSink, AdrStream, InMemorySink};
use vstd::prelude::*;
use vstd::string::*;
use crate::crypto;
use crate::delegation::hop;
use crate::delegation::hop::TokenView;
use crate::delegation::scope::ScopeView;
use crate::delegation::token;
use crate::delegation::token::DelegationToken;
use crate::did;
use crate::encoding;
use crate::error;
use crate::error::{AgentCredsError, ErrorView};
use crate::text;
use crate::time;
use crate::time::Timestamp;

verus! {

// -- Decisions, kinds and signals -------------------------------------------------------------------

/// The outcome of an authorization decision.
#[derive(Debug, Clone, Copy, PartialEq, Eq, Structural)]
pub enum Decision {
    /// The action was permitted.
    Allow,
    /// The action was refused.
    Deny,
}

/// The canonical name.
pub open spec fn decision_name(x: Decision) -> Seq<char> {
    match x {
        Decision::Allow => "allow"@,
        Decision::Deny => "deny"@,
    }
}

/// The canonical names are distinct.
pub proof fn decision_names_are_distinct(a: Decision, b: Decision)
    requires
        decision_name(a) == decision_name(b),
    ensures
        a == b,
{
    reveal_strlit("allow");
    assert("allow"@.len() == 5);
    reveal_strlit("deny");
    assert("deny"@.len() == 4);
}

impl Decision {
    /// The canonical lowercase name.
    #[must_use]
    pub fn as_str(self) -> (r: &'static str)
        ensures
            r@ == decision_name(self),
    {
        match self {
            Decision::Allow => "allow",
            Decision::Deny => "deny",
        }
    }
}

/// What kind of check produced the decision.
#[derive(Debug, Clone, Copy, PartialEq, Eq, Structural)]
pub enum DecisionKind {
    /// A token was minted from a credential.
    Mint,
    /// A token was attenuated for a sub-agent.
    Attenuate,
    /// Chain-only verification.
    Verify,
    /// Anchor-rooted verification.
    VerifyRooted,
    /// A proof-of-possession presentation was checked.
    Presentation,
    /// A revocation status was consulted.
    Revocation,
}

/// The canonical name.
pub open spec fn kind_name(x: DecisionKind) -> Seq<char> {
    match x {
        DecisionKind::Mint => "mint"@,
        DecisionKind::Attenuate => "attenuate"@,
        DecisionKind::Verify => "verify"@,
        DecisionKind::VerifyRooted => "verify_rooted"@,
        DecisionKind::Presentation => "presentation"@,
        DecisionKind::Revocation => "revocation"@,
    }
}

/// The canonical names are distinct.
pub proof fn kind_names_are_distinct(a: DecisionKind, b: DecisionKind)
    requires
        kind_name(a) == kind_name(b),
    ensures
        a == b,
{
    reveal_strlit("mint");
    assert("mint"@.len() == 4);
    reveal_strlit("attenuate");
    assert("attenuate"@.len() == 9);
    reveal_strlit("verify");
    assert("verify"@.len() == 6);
    reveal_strlit("verify_rooted");
    assert("verify_rooted"@.len() == 13);
    reveal_strlit("presentation");
    assert("presentation"@.len() == 12);
    reveal_strlit("revocation");
    assert("revocation"@.len() == 10);
}

impl DecisionKind {
    /// The canonical lowercase name.
    #[must_use]
    pub fn as_str(self) -> (r: &'static str)
        ensures
            r@ == kind_name(self),
    {
        match self {
            DecisionKind::Mint => "mint",
            DecisionKind::Attenuate => "attenuate",
            DecisionKind::Verify => "verify",
            DecisionKind::VerifyRooted => "verify_rooted",
            DecisionKind::Presentation => "presentation",
            DecisionKind::Revocation => "revocation",
        }
    }

    /// Parse a canonical name.
    #[must_use]
    pub fn parse(s: &str) -> (r: Option<Self>)
        ensures
            match r {
                Some(x) => s@ == kind_name(x),
                None => forall|x: DecisionKind| s@ != #[trigger] kind_name(x),
            },
            forall|x: DecisionKind| s@ == #[trigger] kind_name(x) ==> r == Some(x),
    {
        proof {
            assert forall|a: DecisionKind, b: DecisionKind| #[trigger] kind_name(a) == #[trigger] kind_name(b) implies a == b by {
                kind_names_are_distinct(a, b);
            }
        }
        if text::str_eq(s, "mint") {
            assert(kind_name(DecisionKind::Mint) == "mint"@);
            return Some(DecisionKind::Mint);
        }
        if text::str_eq(s, "attenuate") {
            assert(kind_name(DecisionKind::Attenuate) == "attenuate"@);
            return Some(DecisionKind::Attenuate);
        }
        if text::str_eq(s, "verify") {
            assert(kind_name(DecisionKind::Verify) == "verify"@);
            return Some(DecisionKind::Verify);
        }
        if text::str_eq(s, "verify_rooted") {
            assert(kind_name(DecisionKind::VerifyRooted) == "verify_rooted"@);
            return Some(DecisionKind::VerifyRooted);
        }
        if text::str_eq(s, "presentation") {
            assert(kind_name(DecisionKind::Presentation) == "presentation"@);
            return Some(DecisionKind::Presentation);
        }
        if text::str_eq(s, "revocation") {
            assert(kind_name(DecisionKind::Revocation) == "revocation"@);
            return Some(DecisionKind::Revocation);
        }
        None
    }
}

/// A notable condition attached to a decision, derived from the failure that caused a denial.
#[derive(Debug, Clone, Copy, PartialEq, Eq, Structural)]
pub enum Signal {
    /// An attenuation or mint tried to widen scope beyond its parent.
    ScopeWideningAttempt,
    /// Delegation depth exceeded the credential's ceiling.
    DelegationDepthExceeded,
    /// The token or credential had expired.
    Expired,
    /// The credential was revoked, or the revocation list failed to verify.
    Revoked,
    /// The credential issuer did not match the expected anchor.
    IssuerMismatch,
    /// Authority did not trace to the relying party's anchor or credential.
    UnrootedAuthority,
    /// A signature failed to verify.
    SignatureInvalid,
    /// The requested action was outside the token's policy.
    ActionDenied,
    /// Proof of possession failed.
    ProofOfPossessionFailed,
    /// A denial that does not map to a more specific signal.
    Other,
}

/// The canonical name.
pub open spec fn signal_name(x: Signal) -> Seq<char> {
    match x {
        Signal::ScopeWideningAttempt => "scope_widening_attempt"@,
        Signal::DelegationDepthExceeded => "delegation_depth_exceeded"@,
        Signal::Expired => "expired"@,
        Signal::Revoked => "revoked"@,
        Signal::IssuerMismatch => "issuer_mismatch"@,
        Signal::UnrootedAuthority => "unrooted_authority"@,
        Signal::SignatureInvalid => "signature_invalid"@,
        Signal::ActionDenied => "action_denied"@,
        Signal::ProofOfPossessionFailed => "proof_of_possession_failed"@,
        Signal::Other => "other"@,
    }
}

/// The canonical names are distinct.
pub proof fn signal_names_are_distinct(a: Signal, b: Signal)
    requires
        signal_name(a) == signal_name(b),
    ensures
        a == b,
{
    reveal_strlit("scope_widening_attempt");
    assert("scope_widening_attempt"@.len() == 22);
    reveal_strlit("delegation_depth_exceeded");
    assert("delegation_depth_exceeded"@.len() == 25);
    reveal_strlit("expired");
    assert("expired"@.len() == 7);
    reveal_strlit("revoked");
    assert("revoked"@.len() == 7);
    reveal_strlit("issuer_mismatch");
    assert("issuer_mismatch"@.len() == 15);
    reveal_strlit("unrooted_authority");
    assert("unrooted_authority"@.len() == 18);
    reveal_strlit("signature_invalid");
    assert("signature_invalid"@.len() == 17);
    reveal_strlit("action_denied");
    assert("action_denied"@.len() == 13);
    reveal_strlit("proof_of_possession_failed");
    assert("proof_of_possession_failed"@.len() == 26);
    reveal_strlit("other");
    assert("other"@.len() == 5);
    assert("expired"@[0] != "revoked"@[0]);
}

impl Signal {
    /// The canonical lowercase name.
    #[must_use]
    pub fn as_str(self) -> (r: &'static str)
        ensures
            r@ == signal_name(self),
    {
        match self {
            Signal::ScopeWideningAttempt => "scope_widening_attempt",
            Signal::DelegationDepthExceeded => "delegation_depth_exceeded",
            Signal::Expired => "expired",
            Signal::Revoked => "revoked",
            Signal::IssuerMismatch => "issuer_mismatch",
            Signal::UnrootedAuthority => "unrooted_authority",
            Signal::SignatureInvalid => "signature_invalid",
            Signal::ActionDenied => "action_denied",
            Signal::ProofOfPossessionFailed => "proof_of_possession_failed",
            Signal::Other => "other",
        }
    }

    /// Parse a canonical name.
    #[must_use]
    pub fn parse(s: &str) -> (r: Option<Self>)
        ensures
            match r {
                Some(x) => s@ == signal_name(x),
                None => forall|x: Signal| s@ != #[trigger] signal_name(x),
            },
            forall|x: Signal| s@ == #[trigger] signal_name(x) ==> r == Some(x),
    {
        proof {
            assert forall|a: Signal, b: Signal| #[trigger] signal_name(a) == #[trigger] signal_name(b) implies a == b by {
                signal_names_are_distinct(a, b);
            }
        }
        if text::str_eq(s, "scope_widening_attempt") {
            assert(signal_name(Signal::ScopeWideningAttempt) == "scope_widening_attempt"@);
            return Some(Signal::ScopeWideningAttempt);
        }
        if text::str_eq(s, "delegation_depth_exceeded") {
            assert(signal_name(Signal::DelegationDepthExceeded) == "delegation_depth_exceeded"@);
            return Some(Signal::DelegationDepthExceeded);
        }
        if text::str_eq(s, "expired") {
            assert(signal_name(Signal::Expired) == "expired"@);
            return Some(Signal::Expired);
        }
        if text::str_eq(s, "revoked") {
            assert(signal_name(Signal::Revoked) == "revoked"@);
            return Some(Signal::Revoked);
        }
        if text::str_eq(s, "issuer_mismatch") {
            assert(signal_name(Signal::IssuerMismatch) == "issuer_mismatch"@);
            return Some(Signal::IssuerMismatch);
        }
        if text::str_eq(s, "unrooted_authority") {
            assert(signal_name(Signal::UnrootedAuthority) == "unrooted_authority"@);
            return Some(Signal::UnrootedAuthority);
        }
        if text::str_eq(s, "signature_invalid") {
            assert(signal_name(Signal::SignatureInvalid) == "signature_invalid"@);
            return Some(Signal::SignatureInvalid);
        }
        if text::str_eq(s, "action_denied") {
            assert(signal_name(Signal::ActionDenied) == "action_denied"@);
            return Some(Signal::ActionDenied);
        }
        if text::str_eq(s, "proof_of_possession_failed") {
            assert(signal_name(Signal::ProofOfPossessionFailed) == "proof_of_possession_failed"@);
            return Some(Signal::ProofOfPossessionFailed);
        }
        if text::str_eq(s, "other") {
            assert(signal_name(Signal::Other) == "other"@);
            return Some(Signal::Other);
        }
        None
    }
}

/// The signal an operator should see for an error.
pub open spec fn signal_of(e: ErrorView) -> Signal {
    match e {
        ErrorView::ScopeWideningAttempt { .. } => Signal::ScopeWideningAttempt,
        ErrorView::DelegationDepthExceeded { .. } => Signal::DelegationDepthExceeded,
        ErrorView::TokenExpired { .. } => Signal::Expired,
        ErrorView::CredentialExpired { .. } => Signal::Expired,
        ErrorView::CredentialRevoked { .. } => Signal::Revoked,
        ErrorView::InvalidRevocationListSignature => Signal::Revoked,
        ErrorView::RevocationIndexOutOfBounds { .. } => Signal::Revoked,
        ErrorView::IssuerMismatch { .. } => Signal::IssuerMismatch,
        ErrorView::RootKeyMismatch => Signal::UnrootedAuthority,
        ErrorView::ActionDenied { .. } => Signal::ActionDenied,
        ErrorView::ProofOfPossessionFailed { .. } => Signal::ProofOfPossessionFailed,
        ErrorView::InvalidBiscuitSignature { .. } => Signal::SignatureInvalid,
        ErrorView::InvalidVcProof { .. } => Signal::SignatureInvalid,
        ErrorView::InvalidDidSignature { .. } => Signal::SignatureInvalid,
        ErrorView::InvalidKeyMaterial { .. } => Signal::SignatureInvalid,
        ErrorView::SvidValidationFailed { .. } => Signal::SignatureInvalid,
        _ => Signal::Other,
    }
}

impl Signal {
    /// Classify an error into the signal an operator should see.
    #[must_use]
    pub fn from_error(err: &AgentCredsError) -> (r: Self)
        ensures
            r == signal_of(err@),
    {
        match err {
            AgentCredsError::ScopeWideningAttempt { .. } => Signal::ScopeWideningAttempt,
            AgentCredsError::DelegationDepthExceeded { .. } => Signal::DelegationDepthExceeded,
            AgentCredsError::TokenExpired { .. } => Signal::Expired,
            AgentCredsError::CredentialExpired { .. } => Signal::Expired,
            AgentCredsError::CredentialRevoked { .. } => Signal::Revoked,
            AgentCredsError::InvalidRevocationListSignature => Signal::Revoked,
            AgentCredsError::RevocationIndexOutOfBounds { .. } => Signal::Revoked,
            AgentCredsError::IssuerMismatch { .. } => Signal::IssuerMismatch,
            AgentCredsError::RootKeyMismatch => Signal::UnrootedAuthority,
            AgentCredsError::ActionDenied { .. } => Signal::ActionDenied,
            AgentCredsError::ProofOfPossessionFailed { .. } => Signal::ProofOfPossessionFailed,
            AgentCredsError::InvalidBiscuitSignature { .. } => Signal::SignatureInvalid,
            AgentCredsError::InvalidVcProof { .. } => Signal::SignatureInvalid,
            AgentCredsError::InvalidDidSignature { .. } => Signal::SignatureInvalid,
            AgentCredsError::InvalidKeyMaterial { .. } => Signal::SignatureInvalid,
            AgentCredsError::SvidValidationFailed { .. } => Signal::SignatureInvalid,
            _ => Signal::Other,
        }
    }
}

// -- Records ------------------------------------------------------------------------------------------

/// One authorization decision record.
#[derive(Debug)]
pub struct AuthzDecision {
    /// Unique record id (`urn:adr:<hex>`).
    pub id: String,
    /// Sequence number within an [`AdrStream`] (0 until recorded).
    pub seq: u64,
    /// When the decision was made.
    pub timestamp: Timestamp,
    /// Which check produced it.
    pub kind: DecisionKind,
    /// The outcome.
    pub decision: Decision,
    /// The acting (leaf) agent's DID.
    pub subject_did: String,
    /// The root (subject) agent's DID.
    pub root_agent_did: String,
    /// The issuing anchor's DID.
    pub issuer_did: String,
    /// The root credential id: the correlation id.
    pub vc_id: String,
    /// The requested action or tool, if any.
    pub action: Option<String>,
    /// The principal whose authority the agent was exercising. `None` says that the agent
    /// acted on no principal's behalf.
    pub principal_did: Option<String>,
    /// Who answers for this decision.
    pub accountable_party: Option<String>,
    /// Which revision of the ownership record named that party.
    pub party_version: Option<u64>,
    /// Salted commitment to the ownership record.
    pub party_commitment: Option<String>,
    /// Whether the execution-time evidence verified and satisfied policy; `None` where no
    /// gate applied.
    pub evaluation: Option<Decision>,
    /// Whether the reliance unit was admitted. `Deny` beside an evaluation of `Allow` is a
    /// replay of valid, already consumed evidence.
    pub admission: Option<Decision>,
    /// How firmly the accountable party is known.
    pub accountability_source: Option<String>,
    /// Delegation depth at the time of the decision.
    pub depth: u32,
    /// The credential's maximum delegation depth.
    pub max_depth: u32,
    /// Notable signals (empty on a clean allow).
    pub signals: Vec<Signal>,
    /// Human-readable detail (typically the denying error).
    pub reason: Option<String>,
}

/// A decision record as mathematical values.
#[verifier::ext_equal]
pub struct DecisionView {
    pub id: Seq<char>,
    pub seq: u64,
    pub timestamp: int,
    pub kind: DecisionKind,
    pub decision: Decision,
    pub subject_did: Seq<char>,
    pub root_agent_did: Seq<char>,
    pub issuer_did: Seq<char>,
    pub vc_id: Seq<char>,
    pub action: Option<Seq<char>>,
    pub principal_did: Option<Seq<char>>,
    pub accountable_party: Option<Seq<char>>,
    pub party_version: Option<u64>,
    pub party_commitment: Option<Seq<char>>,
    pub evaluation: Option<Decision>,
    pub admission: Option<Decision>,
    pub accountability_source: Option<Seq<char>>,
    pub depth: u32,
    pub max_depth: u32,
    pub signals: Seq<Signal>,
    pub reason: Option<Seq<char>>,
}

impl View for AuthzDecision {
    type V = DecisionView;

    open spec fn view(&self) -> DecisionView {
        DecisionView {
            id: self.id@,
            seq: self.seq,
            timestamp: self.timestamp@,
            kind: self.kind,
            decision: self.decision,
            subject_did: self.subject_did@,
            root_agent_did: self.root_agent_did@,
            issuer_did: self.issuer_did@,
            vc_id: self.vc_id@,
            action: text::opt_view(self.action),
            principal_did: text::opt_view(self.principal_did),
            accountable_party: text::opt_view(self.accountable_party),
            party_version: self.party_version,
            party_commitment: text::opt_view(self.party_commitment),
            evaluation: self.evaluation,
            admission: self.admission,
            accountability_source: text::opt_view(self.accountability_source),
            depth: self.depth,
            max_depth: self.max_depth,
            signals: self.signals@,
            reason: text::opt_view(self.reason),
        }
    }
}

impl Clone for AuthzDecision {
    fn clone(&self) -> (r: Self)
        ensures
            r@ == self@,
    {
        let mut signals: Vec<Signal> = Vec::new();
        for i in 0..self.signals.len()
            invariant
                signals@ == self.signals@.take(i as int),
        {
            signals.push(self.signals[i]);
            assert(self.signals@.take(i + 1) =~= self.signals@.take(i as int).push(
                self.signals@[i as int],
            ));
        }
        assert(self.signals@.take(self.signals@.len() as int) =~= self.signals@);
        AuthzDecision {
            id: self.id.clone(),
            seq: self.seq,
            timestamp: self.timestamp,
            kind: self.kind,
            decision: self.decision,
            subject_did: self.subject_did.clone(),
            root_agent_did: self.root_agent_did.clone(),
            issuer_did: self.issuer_did.clone(),
            vc_id: self.vc_id.clone(),
            action: text::opt_clone(&self.action),
            principal_did: text::opt_clone(&self.principal_did),
            accountable_party: text::opt_clone(&self.accountable_party),
            party_version: self.party_version,
            party_commitment: text::opt_clone(&self.party_commitment),
            evaluation: self.evaluation,
            admission: self.admission,
            accountability_source: text::opt_clone(&self.accountability_source),
            depth: self.depth,
            max_depth: self.max_depth,
            signals,
            reason: text::opt_clone(&self.reason),
        }
    }
}

/// Whether a text is a record id.
pub open spec fn is_record_id(id: Seq<char>) -> bool {
    exists|b: Seq<u8>| b.len() == 16 && id == "urn:adr:"@ + #[trigger] crypto::hex_text(b)
}

fn new_id() -> (r: String)
    ensures
        is_record_id(r@),
{
    let b = crypto::random_bytes(16);
    let mut s = "urn:adr:".to_owned();
    s.append(crypto::hex_encode(b.as_slice()).as_str());
    assert(s@ == "urn:adr:"@ + crypto::hex_text(b@));
    s
}

/// A record of a check that is not about a token.
pub open spec fn bare_record(
    id: Seq<char>,
    timestamp: int,
    kind: DecisionKind,
    subject_did: Seq<char>,
    decision: Decision,
    signals: Seq<Signal>,
    reason: Option<Seq<char>>,
) -> DecisionView {
    DecisionView {
        id,
        seq: 0,
        timestamp,
        kind,
        decision,
        subject_did,
        root_agent_did: Seq::<char>::empty(),
        issuer_did: Seq::<char>::empty(),
        vc_id: Seq::<char>::empty(),
        action: None,
        principal_did: None,
        accountable_party: None,
        party_version: None,
        party_commitment: None,
        evaluation: None,
        admission: None,
        accountability_source: None,
        depth: 0,
        max_depth: 0,
        signals,
        reason,
    }
}

/// The record of a check of a token that gave a result: an error denies, with its signal and
/// its text.
pub open spec fn token_record(
    id: Seq<char>,
    timestamp: int,
    kind: DecisionKind,
    t: TokenView,
    action: Option<Seq<char>>,
    result: Result<(), ErrorView>,
) -> DecisionView {
    DecisionView {
        root_agent_did: t.hops[0].agent_did,
        issuer_did: t.issuer,
        vc_id: t.vc_id,
        action,
        principal_did: t.principal,
        depth: hop::depth_of(t.hops),
        max_depth: t.root_max_depth,
        ..bare_record(
            id,
            timestamp,
            kind,
            t.hops.last().agent_did,
            if result is Ok {
                Decision::Allow
            } else {
                Decision::Deny
            },
            match result {
                Ok(_) => Seq::<Signal>::empty(),
                Err(e) => seq![signal_of(e)],
            },
            match result {
                Ok(_) => None,
                Err(e) => Some(error::error_text(e)),
            },
        )
    }
}

/// The view of an optional borrowed text.
pub open spec fn opt_str_view(s: Option<&str>) -> Option<Seq<char>> {
    match s {
        Some(x) => Some(x@),
        None => None,
    }
}

/// The texts of signals.
pub open spec fn signal_names(v: Seq<Signal>) -> Seq<Seq<char>> {
    v.map_values(|s: Signal| signal_name(s))
}

/// The name of an optional decision.
pub open spec fn opt_decision_name(d: Option<Decision>) -> Option<Seq<char>> {
    match d {
        Some(x) => Some(decision_name(x)),
        None => None,
    }
}

/// A text, or none where there is none.
pub open spec fn or_empty(s: Option<Seq<char>>) -> Seq<char> {
    match s {
        Some(x) => x,
        None => Seq::<char>::empty(),
    }
}

/// A presence byte, then eight bytes where there is a number.
pub open spec fn opt_le64(n: Option<u64>) -> Seq<u8> {
    match n {
        Some(x) => seq![1u8] + encoding::le64(x),
        None => seq![0u8],
    }
}

/// The bytes of which check a record is of, when it was made and how it ended.
pub open spec fn check_bytes(d: DecisionView) -> Seq<u8> {
    encoding::text_field(d.id) + encoding::instant_bytes(d.timestamp)
        + encoding::text_field(kind_name(d.kind)) + encoding::text_field(decision_name(d.decision))
}

/// The bytes of who asked for what.
pub open spec fn request_bytes(d: DecisionView) -> Seq<u8> {
    encoding::text_field(d.subject_did) + encoding::text_field(d.root_agent_did)
        + encoding::text_field(d.issuer_did) + encoding::text_field(d.vc_id)
        + encoding::opt_text_field(d.action)
}

/// The bytes of the delegation depth, the signals and the reason.
pub open spec fn detail_bytes(d: DecisionView) -> Seq<u8> {
    encoding::le32(d.depth) + encoding::le32(d.max_depth) + encoding::le64(d.signals.len() as u64)
        + encoding::text_fields(signal_names(d.signals)) + encoding::opt_text_field(d.reason)
}

/// The bytes of who answers for a record.
pub open spec fn accountability_bytes(d: DecisionView) -> Seq<u8> {
    encoding::opt_text_field(d.principal_did) + encoding::opt_text_field(d.accountable_party)
        + encoding::opt_text_field(d.accountability_source) + opt_le64(d.party_version)
        + encoding::opt_text_field(d.party_commitment)
}

/// The bytes of the two verdicts.
pub open spec fn verdict_bytes(d: DecisionView) -> Seq<u8> {
    encoding::opt_text_field(opt_decision_name(d.evaluation)) + encoding::opt_text_field(
        opt_decision_name(d.admission),
    )
}

/// The bytes under a record's digest: all of it but the sequence number.
pub open spec fn record_bytes(d: DecisionView) -> Seq<u8> {
    encoding::utf8("agentcreds-adr-record-v2"@) + check_bytes(d) + request_bytes(d)
        + detail_bytes(d) + accountability_bytes(d) + verdict_bytes(d)
}

/// The digest of a record.
pub open spec fn record_digest(d: DecisionView) -> Seq<u8> {
    crypto::sha256_digest(record_bytes(d))
}

fn put_decision(out: &mut Vec<u8>, d: Option<Decision>)
    ensures
        final(out)@ == old(out)@ + encoding::opt_text_field(opt_decision_name(d)),
{
    let name: Option<String> = match d {
        Some(x) => Some(x.as_str().to_owned()),
        None => None,
    };
    encoding::put_opt_text(out, &name);
}

fn put_number(out: &mut Vec<u8>, n: Option<u64>)
    ensures
        final(out)@ == old(out)@ + opt_le64(n),
{
    let ghost before = out@;
    match n {
        Some(x) => {
            out.push(1u8);
            encoding::put_u64(out, x);
        },
        None => {
            out.push(0u8);
        },
    }
    assert(out@ =~= before + opt_le64(n));
}

fn put_signals(out: &mut Vec<u8>, v: &Vec<Signal>)
    ensures
        final(out)@ == old(out)@ + encoding::text_fields(signal_names(v@)),
{
    let ghost before = out@;
    let ghost all = signal_names(v@);
    assert(all.take(0) =~= Seq::<Seq<char>>::empty());
    assert(out@ =~= before + encoding::text_fields(all.take(0)));
    for i in 0..v.len()
        invariant
            all == signal_names(v@),
            out@ == before + encoding::text_fields(all.take(i as int)),
    {
        encoding::put_text(out, v[i].as_str());
        assert(all.take(i + 1).drop_last() =~= all.take(i as int));
        assert(all.take(i + 1).last() == signal_name(v@[i as int]));
        assert(out@ =~= before + encoding::text_fields(all.take(i + 1)));
    }
    assert(all.take(all.len() as int) =~= all);
}

impl AuthzDecision {
    /// Build a decision from a delegation token and the result of verifying it. `Ok` becomes
    /// [`Decision::Allow`]; an error becomes [`Decision::Deny`] with the classified
    /// [`Signal`] and the error's text as the reason.
    pub fn from_token(
        kind: DecisionKind,
        token: &DelegationToken,
        action: Option<&str>,
        result: &Result<(), AgentCredsError>,
    ) -> (r: Self)
        ensures
            is_record_id(r@.id),
            r@ == token_record(
                r@.id,
                r@.timestamp,
                kind,
                token@,
                opt_str_view(action),
                did::unit_view(*result),
            ),
    {
        let (decision, signals, reason) = match result {
            Ok(_) => {
                let none: Vec<Signal> = Vec::new();
                assert(none@ =~= Seq::<Signal>::empty());
                (Decision::Allow, none, None)
            },
            Err(e) => {
                let mut one: Vec<Signal> = Vec::new();
                one.push(Signal::from_error(e));
                assert(one@ =~= seq![signal_of(e@)]);
                (Decision::Deny, one, Some(e.to_string()))
            },
        };
        AuthzDecision {
            id: new_id(),
            seq: 0,
            timestamp: Timestamp::now(),
            kind,
            decision,
            subject_did: token.leaf_agent_did().to_owned(),
            root_agent_did: token.root_agent_did().to_owned(),
            issuer_did: token.issuer_did().to_owned(),
            vc_id: token.vc_id().to_owned(),
            action: match action {
                Some(a) => Some(a.to_owned()),
                None => None,
            },
            principal_did: match token.principal_did() {
                Some(p) => Some(p.to_owned()),
                None => None,
            },
            accountable_party: None,
            party_version: None,
            party_commitment: None,
            evaluation: None,
            admission: None,
            accountability_source: None,
            depth: token.depth(),
            max_depth: token.max_delegation_depth(),
            signals,
            reason,
        }
    }

    /// Record how the accountable party was established.
    #[must_use]
    pub fn with_accountability_source(self, source: Option<String>) -> (r: Self)
        ensures
            r@ == (DecisionView { accountability_source: text::opt_view(source), ..self@ }),
    {
        AuthzDecision { accountability_source: source, ..self }
    }

    /// Record who answers for this decision.
    #[must_use]
    pub fn with_accountable_party(self, party: Option<String>) -> (r: Self)
        ensures
            r@ == (DecisionView { accountable_party: text::opt_view(party), ..self@ }),
    {
        AuthzDecision { accountable_party: party, ..self }
    }

    /// Record which revision of the ownership record named the party, and the salted
    /// commitment to it.
    #[must_use]
    pub fn with_party_record(self, version: Option<u64>, commitment: Option<String>) -> (r: Self)
        ensures
            r@ == (DecisionView {
                party_version: version,
                party_commitment: text::opt_view(commitment),
                ..self@
            }),
    {
        AuthzDecision { party_version: version, party_commitment: commitment, ..self }
    }

    /// Record the evaluation and admission outcomes separately.
    #[must_use]
    pub fn with_verdicts(self, evaluation: Option<Decision>, admission: Option<Decision>) -> (r:
        Self)
        ensures
            r@ == (DecisionView { evaluation, admission, ..self@ }),
    {
        AuthzDecision { evaluation, admission, ..self }
    }

    /// A bare allow for a subject. Enrich with the `with_*` setters.
    pub fn allow(kind: DecisionKind, subject_did: &str) -> (r: Self)
        ensures
            is_record_id(r@.id),
            r@ == bare_record(
                r@.id,
                r@.timestamp,
                kind,
                subject_did@,
                Decision::Allow,
                Seq::<Signal>::empty(),
                None,
            ),
    {
        let none: Vec<Signal> = Vec::new();
        assert(none@ =~= Seq::<Signal>::empty());
        Self::bare(kind, subject_did, Decision::Allow, none, None)
    }

    /// A bare deny for a subject, with a signal and reason.
    pub fn deny(kind: DecisionKind, subject_did: &str, signal: Signal, reason: &str) -> (r: Self)
        ensures
            is_record_id(r@.id),
            r@ == bare_record(
                r@.id,
                r@.timestamp,
                kind,
                subject_did@,
                Decision::Deny,
                seq![signal],
                Some(reason@),
            ),
    {
        let mut one: Vec<Signal> = Vec::new();
        one.push(signal);
        assert(one@ =~= seq![signal]);
        Self::bare(kind, subject_did, Decision::Deny, one, Some(reason.to_owned()))
    }

    fn bare(
        kind: DecisionKind,
        subject_did: &str,
        decision: Decision,
        signals: Vec<Signal>,
        reason: Option<String>,
    ) -> (r: Self)
        ensures
            is_record_id(r@.id),
            r@ == bare_record(
                r@.id,
                r@.timestamp,
                kind,
                subject_did@,
                decision,
                signals@,
                text::opt_view(reason),
            ),
    {
        let r = AuthzDecision {
            id: new_id(),
            seq: 0,
            timestamp: Timestamp::now(),
            kind,
            decision,
            subject_did: subject_did.to_owned(),
            root_agent_did: String::new(),
            issuer_did: String::new(),
            vc_id: String::new(),
            action: None,
            principal_did: None,
            accountable_party: None,
            party_version: None,
            party_commitment: None,
            evaluation: None,
            admission: None,
            accountability_source: None,
            depth: 0,
            max_depth: 0,
            signals,
            reason,
        };
        assert(r@.root_agent_did =~= Seq::<char>::empty());
        assert(r@.issuer_did =~= Seq::<char>::empty());
        assert(r@.vc_id =~= Seq::<char>::empty());
        r
    }

    /// Set the requested action.
    #[must_use]
    pub fn with_action(self, action: &str) -> (r: Self)
        ensures
            r@ == (DecisionView { action: Some(action@), ..self@ }),
    {
        AuthzDecision { action: Some(action.to_owned()), ..self }
    }

    /// Set the correlation (root credential id) and issuer anchor DID.
    #[must_use]
    pub fn with_correlation(self, vc_id: &str, issuer_did: &str) -> (r: Self)
        ensures
            r@ == (DecisionView { vc_id: vc_id@, issuer_did: issuer_did@, ..self@ }),
    {
        AuthzDecision { vc_id: vc_id.to_owned(), issuer_did: issuer_did.to_owned(), ..self }
    }

    /// The canonical SHA-256 digest of this record (32 bytes). Used by the stream's hash
    /// chain; excludes the sequence number.
    pub fn digest(&self) -> (r: Vec<u8>)
        ensures
            r@ == record_digest(self@),
            r@.len() == 32,
    {
        let check = self.check();
        let request = self.request();
        let detail = self.detail();
        let accountability = self.accountability();
        let verdicts = self.verdicts();
        let mut m: Vec<u8> = Vec::new();
        encoding::put_bytes(&mut m, "agentcreds-adr-record-v2".as_bytes());
        assert(m@ =~= encoding::utf8("agentcreds-adr-record-v2"@));
        encoding::put_bytes(&mut m, check.as_slice());
        encoding::put_bytes(&mut m, request.as_slice());
        encoding::put_bytes(&mut m, detail.as_slice());
        encoding::put_bytes(&mut m, accountability.as_slice());
        encoding::put_bytes(&mut m, verdicts.as_slice());
        crypto::sha256(m.as_slice())
    }

    fn check(&self) -> (r: Vec<u8>)
        ensures
            r@ == check_bytes(self@),
    {
        let mut m: Vec<u8> = Vec::new();
        encoding::put_text(&mut m, self.id.as_str());
        assert(m@ =~= encoding::text_field(self@.id));
        encoding::put_instant(&mut m, self.timestamp);
        encoding::put_text(&mut m, self.kind.as_str());
        encoding::put_text(&mut m, self.decision.as_str());
        m
    }

    fn request(&self) -> (r: Vec<u8>)
        ensures
            r@ == request_bytes(self@),
    {
        let mut m: Vec<u8> = Vec::new();
        encoding::put_text(&mut m, self.subject_did.as_str());
        assert(m@ =~= encoding::text_field(self@.subject_did));
        encoding::put_text(&mut m, self.root_agent_did.as_str());
        encoding::put_text(&mut m, self.issuer_did.as_str());
        encoding::put_text(&mut m, self.vc_id.as_str());
        encoding::put_opt_text(&mut m, &self.action);
        m
    }

    fn detail(&self) -> (r: Vec<u8>)
        ensures
            r@ == detail_bytes(self@),
    {
        let mut m: Vec<u8> = Vec::new();
        encoding::put_u32(&mut m, self.depth);
        assert(m@ =~= encoding::le32(self@.depth));
        encoding::put_u32(&mut m, self.max_depth);
        encoding::put_u64(&mut m, self.signals.len() as u64);
        put_signals(&mut m, &self.signals);
        encoding::put_opt_text(&mut m, &self.reason);
        m
    }

    fn accountability(&self) -> (r: Vec<u8>)
        ensures
            r@ == accountability_bytes(self@),
    {
        let mut m: Vec<u8> = Vec::new();
        encoding::put_opt_text(&mut m, &self.principal_did);
        assert(m@ =~= encoding::opt_text_field(self@.principal_did));
        encoding::put_opt_text(&mut m, &self.accountable_party);
        encoding::put_opt_text(&mut m, &self.accountability_source);
        put_number(&mut m, self.party_version);
        encoding::put_opt_text(&mut m, &self.party_commitment);
        m
    }

    fn verdicts(&self) -> (r: Vec<u8>)
        ensures
            r@ == verdict_bytes(self@),
    {
        let mut m: Vec<u8> = Vec::new();
        put_decision(&mut m, self.evaluation);
        assert(m@ =~= encoding::opt_text_field(opt_decision_name(self@.evaluation)));
        put_decision(&mut m, self.admission);
        m
    }

    /// The [`digest`](Self::digest) as a hex string.
    pub fn digest_hex(&self) -> (r: String)
        ensures
            r@ == crypto::hex_text(record_digest(self@)),
    {
        crypto::hex_encode(self.digest().as_slice())
    }
}

// -- What a digest covers -----------------------------------------------------------------------------

/// Whether a record fits the machine: its texts and signals can be counted in 64 bits and its
/// instant is in range.
pub open spec fn fits(d: DecisionView) -> bool {
    &&& time::time_in_range(d.timestamp)
    &&& encoding::utf8(d.id).len() <= u64::MAX
    &&& encoding::utf8(d.subject_did).len() <= u64::MAX
    &&& encoding::utf8(d.root_agent_did).len() <= u64::MAX
    &&& encoding::utf8(d.issuer_did).len() <= u64::MAX
    &&& encoding::utf8(d.vc_id).len() <= u64::MAX
    &&& encoding::utf8(or_empty(d.action)).len() <= u64::MAX
    &&& encoding::utf8(or_empty(d.reason)).len() <= u64::MAX
    &&& encoding::utf8(or_empty(d.principal_did)).len() <= u64::MAX
    &&& encoding::utf8(or_empty(d.accountable_party)).len() <= u64::MAX
    &&& encoding::utf8(or_empty(d.accountability_source)).len() <= u64::MAX
    &&& encoding::utf8(or_empty(d.party_commitment)).len() <= u64::MAX
    &&& d.signals.len() <= u64::MAX
}

/// Whether two records are the same but for their sequence numbers.
pub open spec fn says_the_same(a: DecisionView, b: DecisionView) -> bool {
    a == (DecisionView { seq: a.seq, ..b })
}

/// Records that say the same have the same digest, whatever their sequence numbers.
pub proof fn digest_ignores_the_sequence_number(a: DecisionView, b: DecisionView)
    requires
        says_the_same(a, b),
    ensures
        record_digest(a) == record_digest(b),
{
}

proof fn lemma_names_fit()
    ensures
        forall|d: Decision| encoding::utf8(#[trigger] decision_name(d)).len() <= u64::MAX,
        forall|k: DecisionKind| encoding::utf8(#[trigger] kind_name(k)).len() <= u64::MAX,
        forall|s: Signal| encoding::utf8(#[trigger] signal_name(s)).len() <= u64::MAX,
{
    assert forall|d: Decision| encoding::utf8(#[trigger] decision_name(d)).len() <= u64::MAX by {
        encoding::lemma_utf8_len(decision_name(d));
        decision_names_are_short(d);
    }
    assert forall|k: DecisionKind| encoding::utf8(#[trigger] kind_name(k)).len() <= u64::MAX by {
        encoding::lemma_utf8_len(kind_name(k));
        kind_names_are_short(k);
    }
    assert forall|s: Signal| encoding::utf8(#[trigger] signal_name(s)).len() <= u64::MAX by {
        encoding::lemma_utf8_len(signal_name(s));
        signal_names_are_short(s);
    }
}

proof fn decision_names_are_short(x: Decision)
    ensures
        decision_name(x).len() <= 30,
{
    reveal_strlit("allow");
    reveal_strlit("deny");
}

proof fn kind_names_are_short(x: DecisionKind)
    ensures
        kind_name(x).len() <= 30,
{
    reveal_strlit("mint");
    reveal_strlit("attenuate");
    reveal_strlit("verify");
    reveal_strlit("verify_rooted");
    reveal_strlit("presentation");
    reveal_strlit("revocation");
}

proof fn signal_names_are_short(x: Signal)
    ensures
        signal_name(x).len() <= 30,
{
    reveal_strlit("scope_widening_attempt");
    reveal_strlit("delegation_depth_exceeded");
    reveal_strlit("expired");
    reveal_strlit("revoked");
    reveal_strlit("issuer_mismatch");
    reveal_strlit("unrooted_authority");
    reveal_strlit("signature_invalid");
    reveal_strlit("action_denied");
    reveal_strlit("proof_of_possession_failed");
    reveal_strlit("other");
}

proof fn lemma_check_prefix(a: DecisionView, b: DecisionView, x: Seq<u8>, y: Seq<u8>)
    requires
        fits(a),
        fits(b),
        check_bytes(a) + x == check_bytes(b) + y,
    ensures
        a.id == b.id,
        a.timestamp == b.timestamp,
        a.kind == b.kind,
        a.decision == b.decision,
        x == y,
{
    lemma_names_fit();
    let (ia, ib) = (encoding::text_field(a.id), encoding::text_field(b.id));
    let (ta, tb) = (encoding::instant_bytes(a.timestamp), encoding::instant_bytes(b.timestamp));
    let (ka, kb) = (encoding::text_field(kind_name(a.kind)), encoding::text_field(kind_name(b.kind)));
    let (da, db) = (
        encoding::text_field(decision_name(a.decision)),
        encoding::text_field(decision_name(b.decision)),
    );
    encoding::lemma_assoc_five(ia, ta, ka, da, x);
    encoding::lemma_assoc_five(ib, tb, kb, db, y);
    encoding::lemma_text_field_prefix(a.id, b.id, ta + (ka + (da + x)), tb + (kb + (db + y)));
    encoding::lemma_instant_prefix(a.timestamp, b.timestamp, ka + (da + x), kb + (db + y));
    encoding::lemma_text_field_prefix(kind_name(a.kind), kind_name(b.kind), da + x, db + y);
    encoding::lemma_text_field_prefix(decision_name(a.decision), decision_name(b.decision), x, y);
    kind_names_are_distinct(a.kind, b.kind);
    decision_names_are_distinct(a.decision, b.decision);
}

proof fn lemma_request_prefix(a: DecisionView, b: DecisionView, x: Seq<u8>, y: Seq<u8>)
    requires
        fits(a),
        fits(b),
        request_bytes(a) + x == request_bytes(b) + y,
    ensures
        a.subject_did == b.subject_did,
        a.root_agent_did == b.root_agent_did,
        a.issuer_did == b.issuer_did,
        a.vc_id == b.vc_id,
        a.action == b.action,
        x == y,
{
    let (sa, sb) = (encoding::text_field(a.subject_did), encoding::text_field(b.subject_did));
    let (ra, rb) = (encoding::text_field(a.root_agent_did), encoding::text_field(b.root_agent_did));
    let (ia, ib) = (encoding::text_field(a.issuer_did), encoding::text_field(b.issuer_did));
    let (va, vb) = (encoding::text_field(a.vc_id), encoding::text_field(b.vc_id));
    let (ca, cb) = (
        encoding::opt_text_field(a.action),
        encoding::opt_text_field(b.action),
    );
    encoding::lemma_assoc_six(sa, ra, ia, va, ca, x);
    encoding::lemma_assoc_six(sb, rb, ib, vb, cb, y);
    encoding::lemma_text_field_prefix(
        a.subject_did,
        b.subject_did,
        ra + (ia + (va + (ca + x))),
        rb + (ib + (vb + (cb + y))),
    );
    encoding::lemma_text_field_prefix(
        a.root_agent_did,
        b.root_agent_did,
        ia + (va + (ca + x)),
        ib + (vb + (cb + y)),
    );
    encoding::lemma_text_field_prefix(
        a.issuer_did,
        b.issuer_did,
        va + (ca + x),
        vb + (cb + y),
    );
    encoding::lemma_text_field_prefix(a.vc_id, b.vc_id, ca + x, cb + y);
    encoding::lemma_opt_text_field_prefix(a.action, b.action, x, y);
}

proof fn lemma_signals(a: Seq<Signal>, b: Seq<Signal>)
    requires
        signal_names(a) == signal_names(b),
    ensures
        a == b,
{
    assert(a.len() == signal_names(a).len() && b.len() == signal_names(b).len());
    assert forall|i: int| 0 <= i < a.len() implies a[i] == b[i] by {
        assert(signal_names(a)[i] == signal_names(b)[i]);
        signal_names_are_distinct(a[i], b[i]);
    }
    assert(a =~= b);
}

proof fn lemma_detail_prefix(a: DecisionView, b: DecisionView, x: Seq<u8>, y: Seq<u8>)
    requires
        fits(a),
        fits(b),
        detail_bytes(a) + x == detail_bytes(b) + y,
    ensures
        a.depth == b.depth,
        a.max_depth == b.max_depth,
        a.signals == b.signals,
        a.reason == b.reason,
        x == y,
{
    lemma_names_fit();
    let (da, db) = (encoding::le32(a.depth), encoding::le32(b.depth));
    let (ma, mb) = (encoding::le32(a.max_depth), encoding::le32(b.max_depth));
    let (ca, cb) = (a.signals.len() as u64, b.signals.len() as u64);
    let (na, nb) = (encoding::le64(ca), encoding::le64(cb));
    let (va, vb) = (signal_names(a.signals), signal_names(b.signals));
    let (sa, sb) = (encoding::text_fields(va), encoding::text_fields(vb));
    let (ra, rb) = (
        encoding::opt_text_field(a.reason),
        encoding::opt_text_field(b.reason),
    );
    encoding::lemma_assoc_six(da, ma, na, sa, ra, x);
    encoding::lemma_assoc_six(db, mb, nb, sb, rb, y);
    encoding::lemma_le32_prefix(
        a.depth,
        b.depth,
        ma + (na + (sa + (ra + x))),
        mb + (nb + (sb + (rb + y))),
    );
    encoding::lemma_le32_prefix(
        a.max_depth,
        b.max_depth,
        na + (sa + (ra + x)),
        nb + (sb + (rb + y)),
    );
    encoding::lemma_le64_prefix(ca, cb, sa + (ra + x), sb + (rb + y));
    encoding::lemma_text_fields_prefix(va, vb, ra + x, rb + y);
    encoding::lemma_opt_text_field_prefix(a.reason, b.reason, x, y);
    lemma_signals(a.signals, b.signals);
}

proof fn lemma_opt_le64_prefix(a: Option<u64>, b: Option<u64>, x: Seq<u8>, y: Seq<u8>)
    requires
        opt_le64(a) + x == opt_le64(b) + y,
    ensures
        a == b,
        x == y,
{
    let (l, r) = (opt_le64(a) + x, opt_le64(b) + y);
    assert(l[0] == r[0]);
    match (a, b) {
        (Some(m), Some(n)) => {
            encoding::lemma_assoc(seq![1u8], encoding::le64(m), x);
            encoding::lemma_assoc(seq![1u8], encoding::le64(n), y);
            encoding::lemma_split(seq![1u8], seq![1u8], encoding::le64(m) + x, encoding::le64(n) + y);
            encoding::lemma_le64_prefix(m, n, x, y);
        },
        (None, None) => {
            encoding::lemma_split(seq![0u8], seq![0u8], x, y);
        },
        (Some(m), None) => {
            assert(opt_le64(a)[0] == 1 && opt_le64(b)[0] == 0);
        },
        (None, Some(n)) => {
            assert(opt_le64(a)[0] == 0 && opt_le64(b)[0] == 1);
        },
    }
}

proof fn lemma_accountability_prefix(a: DecisionView, b: DecisionView, x: Seq<u8>, y: Seq<u8>)
    requires
        fits(a),
        fits(b),
        accountability_bytes(a) + x == accountability_bytes(b) + y,
    ensures
        a.principal_did == b.principal_did,
        a.accountable_party == b.accountable_party,
        a.accountability_source == b.accountability_source,
        a.party_version == b.party_version,
        a.party_commitment == b.party_commitment,
        x == y,
{
    let (pa, pb) = (
        encoding::opt_text_field(a.principal_did),
        encoding::opt_text_field(b.principal_did),
    );
    let (qa, qb) = (
        encoding::opt_text_field(a.accountable_party),
        encoding::opt_text_field(b.accountable_party),
    );
    let (sa, sb) = (
        encoding::opt_text_field(a.accountability_source),
        encoding::opt_text_field(b.accountability_source),
    );
    let (va, vb) = (opt_le64(a.party_version), opt_le64(b.party_version));
    let (ca, cb) = (
        encoding::opt_text_field(a.party_commitment),
        encoding::opt_text_field(b.party_commitment),
    );
    encoding::lemma_assoc_six(pa, qa, sa, va, ca, x);
    encoding::lemma_assoc_six(pb, qb, sb, vb, cb, y);
    encoding::lemma_opt_text_field_prefix(
        a.principal_did,
        b.principal_did,
        qa + (sa + (va + (ca + x))),
        qb + (sb + (vb + (cb + y))),
    );
    encoding::lemma_opt_text_field_prefix(
        a.accountable_party,
        b.accountable_party,
        sa + (va + (ca + x)),
        sb + (vb + (cb + y)),
    );
    encoding::lemma_opt_text_field_prefix(
        a.accountability_source,
        b.accountability_source,
        va + (ca + x),
        vb + (cb + y),
    );
    lemma_opt_le64_prefix(a.party_version, b.party_version, ca + x, cb + y);
    encoding::lemma_opt_text_field_prefix(a.party_commitment, b.party_commitment, x, y);
}

proof fn lemma_verdicts(a: DecisionView, b: DecisionView)
    requires
        verdict_bytes(a) == verdict_bytes(b),
    ensures
        a.evaluation == b.evaluation,
        a.admission == b.admission,
{
    lemma_names_fit();
    let none = Seq::<u8>::empty();
    let (ea, eb) = (opt_decision_name(a.evaluation), opt_decision_name(b.evaluation));
    let (ma, mb) = (opt_decision_name(a.admission), opt_decision_name(b.admission));
    encoding::lemma_opt_text_field_prefix(
        ea,
        eb,
        encoding::opt_text_field(ma),
        encoding::opt_text_field(mb),
    );
    assert(encoding::opt_text_field(ma) + none =~= encoding::opt_text_field(ma));
    assert(encoding::opt_text_field(mb) + none =~= encoding::opt_text_field(mb));
    encoding::lemma_opt_text_field_prefix(ma, mb, none, none);
    if a.evaluation is Some {
        decision_names_are_distinct(a.evaluation->0, b.evaluation->0);
    }
    if a.admission is Some {
        decision_names_are_distinct(a.admission->0, b.admission->0);
    }
}

/// The digested bytes cover a whole record, who answers for it and its verdicts among them:
/// records with the same bytes are the same but for their sequence numbers.
pub proof fn digest_covers_the_whole_record(a: DecisionView, b: DecisionView)
    requires
        fits(a),
        fits(b),
        record_bytes(a) == record_bytes(b),
    ensures
        says_the_same(a, b),
{
    let d = encoding::utf8("agentcreds-adr-record-v2"@);
    let (ca, cb) = (check_bytes(a), check_bytes(b));
    let (ra, rb) = (request_bytes(a), request_bytes(b));
    let (ta, tb) = (detail_bytes(a), detail_bytes(b));
    let (aa, ab) = (accountability_bytes(a), accountability_bytes(b));
    let (va, vb) = (verdict_bytes(a), verdict_bytes(b));
    encoding::lemma_assoc_six(d, ca, ra, ta, aa, va);
    encoding::lemma_assoc_six(d, cb, rb, tb, ab, vb);
    encoding::lemma_split(d, d, ca + (ra + (ta + (aa + va))), cb + (rb + (tb + (ab + vb))));
    lemma_check_prefix(a, b, ra + (ta + (aa + va)), rb + (tb + (ab + vb)));
    lemma_request_prefix(a, b, ta + (aa + va), tb + (ab + vb));
    lemma_detail_prefix(a, b, aa + va, ab + vb);
    lemma_accountability_prefix(a, b, va, vb);
    lemma_verdicts(a, b);
}

// -- What a record says --------------------------------------------------------------------------------

/// A digest stands for one record: records with one digest are the same but for their sequence
/// numbers, unless SHA-256 fails on the two.
pub proof fn a_digest_stands_for_one_record(a: DecisionView, b: DecisionView)
    requires
        fits(a),
        fits(b),
        record_digest(a) == record_digest(b),
    ensures
        says_the_same(a, b) || crypto::breaks_on(set![record_bytes(a), record_bytes(b)]),
{
    let inputs = set![record_bytes(a), record_bytes(b)];
    if !crypto::breaks_on(inputs) {
        assert(inputs.contains(record_bytes(a)) && inputs.contains(record_bytes(b)));
        digest_covers_the_whole_record(a, b);
    }
}

/// The record of a decision about a token says who acted and under what: its subject is the agent of
/// the last hop, its root the agent of the first, and the issuer, the credential, the principal and
/// the depth bound are the token's. It allows exactly where the result is `Ok`; otherwise it gives the
/// error's one signal and its text.
pub proof fn a_token_record_names_who_acted(
    id: Seq<char>,
    timestamp: int,
    kind: DecisionKind,
    t: TokenView,
    action: Option<Seq<char>>,
    result: Result<(), ErrorView>,
)
    requires
        t.hops.len() > 0,
    ensures
        ({
            let d = token_record(id, timestamp, kind, t, action, result);
            &&& d.id == id
            &&& d.timestamp == timestamp
            &&& d.kind == kind
            &&& d.subject_did == t.hops[t.hops.len() - 1].agent_did
            &&& d.root_agent_did == t.hops[0].agent_did
            &&& d.issuer_did == t.issuer
            &&& d.vc_id == t.vc_id
            &&& d.principal_did == t.principal
            &&& d.action == action
            &&& t.hops.len() <= u32::MAX ==> d.depth == t.hops.len() - 1
            &&& d.max_depth == t.root_max_depth
            &&& d.decision is Allow <==> result is Ok
            &&& result is Ok ==> d.signals.len() == 0 && d.reason is None
            &&& result is Err ==> d.signals.len() == 1 && d.signals[0] == signal_of(result->Err_0)
                && d.reason == Some(error::error_text(result->Err_0))
        }),
{
}

/// A record of a token has no more to say than the token and the result give: nothing about the
/// accountable party or about separate verdicts, until these are set.
pub proof fn a_fresh_record_names_no_accountable_party(
    id: Seq<char>,
    timestamp: int,
    kind: DecisionKind,
    t: TokenView,
    action: Option<Seq<char>>,
    result: Result<(), ErrorView>,
    subject_did: Seq<char>,
    decision: Decision,
    signals: Seq<Signal>,
    reason: Option<Seq<char>>,
)
    ensures
        ({
            let d = token_record(id, timestamp, kind, t, action, result);
            &&& d.accountable_party is None && d.party_version is None && d.party_commitment is None
            &&& d.accountability_source is None && d.evaluation is None && d.admission is None
        }),
        ({
            let d = bare_record(id, timestamp, kind, subject_did, decision, signals, reason);
            &&& d.accountable_party is None && d.party_version is None && d.party_commitment is None
            &&& d.accountability_source is None && d.evaluation is None && d.admission is None
            &&& d.id == id && d.timestamp == timestamp && d.kind == kind
            &&& d.subject_did == subject_did && d.decision == decision
            &&& d.signals == signals && d.reason == reason
            &&& d.root_agent_did.len() == 0 && d.issuer_did.len() == 0 && d.vc_id.len() == 0
            &&& d.action is None && d.principal_did is None && d.depth == 0 && d.max_depth == 0
        }),
{
}

/// After a narrowing the record of the narrowed token has the agent it was narrowed to as its
/// subject, and keeps the parent's root agent.
pub proof fn a_narrowed_token_is_recorded_under_its_agent(
    child: TokenView,
    parent: TokenView,
    s: ScopeView,
    ttl_secs: u64,
    agent_did: Seq<char>,
    key: Seq<u8>,
    attestation: Seq<u8>,
    now: int,
    id: Seq<char>,
    timestamp: int,
    kind: DecisionKind,
    action: Option<Seq<char>>,
    result: Result<(), ErrorView>,
)
    requires
        parent.hops.len() > 0,
        token::narrowed(child, parent, s, ttl_secs, agent_did, key, attestation, now),
    ensures
        token_record(id, timestamp, kind, child, action, result).subject_did == agent_did,
        token_record(id, timestamp, kind, child, action, result).root_agent_did == token_record(
            id,
            timestamp,
            kind,
            parent,
            action,
            result,
        ).root_agent_did,
        token_record(id, timestamp, kind, child, action, result).root_agent_did
            == parent.hops[0].agent_did,
{
}

/// A refusal is classified by what was wrong, and by nothing else: each signal stands for its own
/// errors, and every other error is `Other`.
pub proof fn a_signal_says_what_was_wrong(e: ErrorView)
    ensures
        signal_of(e) is ScopeWideningAttempt <==> e is ScopeWideningAttempt,
        signal_of(e) is DelegationDepthExceeded <==> e is DelegationDepthExceeded,
        signal_of(e) is Expired <==> e is TokenExpired || e is CredentialExpired,
        signal_of(e) is Revoked <==> e is CredentialRevoked || e is InvalidRevocationListSignature
            || e is RevocationIndexOutOfBounds,
        signal_of(e) is IssuerMismatch <==> e is IssuerMismatch,
        signal_of(e) is UnrootedAuthority <==> e is RootKeyMismatch,
        signal_of(e) is ActionDenied <==> e is ActionDenied,
        signal_of(e) is ProofOfPossessionFailed <==> e is ProofOfPossessionFailed,
        signal_of(e) is SignatureInvalid <==> e is InvalidBiscuitSignature || e is InvalidVcProof
            || e is InvalidDidSignature || e is InvalidKeyMaterial || e is SvidValidationFailed,
{
}

/// A record's identifier is its scheme and the hex of sixteen bytes.
pub proof fn a_record_id_is_of_sixteen_bytes(id: Seq<char>)
    requires
        is_record_id(id),
    ensures
        text::begins(id, "urn:adr:"@),
        id.len() == 40,
{
    reveal_strlit("urn:adr:");
    let b = choose|b: Seq<u8>| b.len() == 16 && id == "urn:adr:"@ + #[trigger] crypto::hex_text(b);
    assert(id.take("urn:adr:"@.len() as int) =~= "urn:adr:"@);
}

} // verus!
