//! Signed intent statements, and evidence that an evaluator judged an action aligned with
//! one.
//!
//! Alignment is a judgement, and it is not made here: it is made elsewhere, signed, and what
//! reaches the enforcement point is checked deterministically and offline. An agent cannot
//! author its own intent, since a bound that comes from the party being bounded cannot fail.

use vstd::prelude::*;
use vstd::string::*;
use crate::approval::Gate;
use crate::crypto;
use crate::delegation::action;
use crate::delegation::action::{Action, ActionView};
use crate::delegation::rules;
use crate::did;
use crate::did::{KeyView, TrustAnchor};
use crate::encoding;
use crate::error::{AgentCredsError, ErrorView};
use crate::signed;
use crate::text;
use crate::time::Timestamp;

verus! {

// -- Statements -----------------------------------------------------------------------------------

/// A signed declaration of what an agent is for on a given task, authored by an authority
/// other than the agent. It never widens authority: it is a bound beside the token's scope.
#[derive(Debug, PartialEq, Eq)]
pub struct IntentStatement {
    /// Unique id of this statement.
    pub intent_id: String,
    /// The task or thread this intent governs.
    pub task_id: String,
    /// The agent this intent is declared for.
    pub subject_did: String,
    /// The declared intent itself - natural language or a structured goal, opaque here.
    pub statement: String,
    /// The authority that declared it. Must not be the subject agent.
    pub declared_by: String,
    /// Issued at, Unix seconds.
    pub issued_at: i64,
    /// Expiry, Unix seconds. A statement at or after this instant is refused.
    pub expires_at: i64,
    /// Anchor signature over the signing payload, hex-encoded.
    pub signature: String,
}

/// An intent statement as mathematical values.
#[verifier::ext_equal]
pub struct StatementView {
    pub intent_id: Seq<char>,
    pub task_id: Seq<char>,
    pub subject_did: Seq<char>,
    pub statement: Seq<char>,
    pub declared_by: Seq<char>,
    pub issued_at: i64,
    pub expires_at: i64,
    pub signature: Seq<char>,
}

impl View for IntentStatement {
    type V = StatementView;

    open spec fn view(&self) -> StatementView {
        StatementView {
            intent_id: self.intent_id@,
            task_id: self.task_id@,
            subject_did: self.subject_did@,
            statement: self.statement@,
            declared_by: self.declared_by@,
            issued_at: self.issued_at,
            expires_at: self.expires_at,
            signature: self.signature@,
        }
    }
}

impl Clone for IntentStatement {
    fn clone(&self) -> (r: Self)
        ensures
            r@ == self@,
    {
        IntentStatement {
            intent_id: self.intent_id.clone(),
            task_id: self.task_id.clone(),
            subject_did: self.subject_did.clone(),
            statement: self.statement.clone(),
            declared_by: self.declared_by.clone(),
            issued_at: self.issued_at,
            expires_at: self.expires_at,
            signature: self.signature.clone(),
        }
    }
}

/// The bytes of a statement that are hashed and signed: all of it but the signature.
pub open spec fn statement_bytes(s: StatementView) -> Seq<u8> {
    encoding::utf8("agentcreds-intent-statement-v1"@) + encoding::text_field(s.intent_id)
        + encoding::text_field(s.task_id) + encoding::text_field(s.subject_did)
        + encoding::text_field(s.statement) + encoding::text_field(s.declared_by)
        + encoding::le64_signed(s.issued_at) + encoding::le64_signed(s.expires_at)
}

/// The digest that a statement is signed over.
pub open spec fn statement_digest(s: StatementView) -> Seq<u8> {
    crypto::sha256_digest(statement_bytes(s))
}

/// The text that evidence refers to a statement by.
pub open spec fn statement_binding(s: StatementView) -> Seq<char> {
    crypto::hex_text(statement_digest(s))
}

/// Malformed claims with a reason.
pub open spec fn malformed(reason: Seq<char>) -> ErrorView {
    ErrorView::MalformedClaims { reason }
}

/// Why a statement may not be declared.
pub open spec fn declare_refused(
    subject_did: Seq<char>,
    declared_by: Seq<char>,
    issued_at: i64,
    expires_at: i64,
) -> Option<ErrorView> {
    if declared_by == subject_did {
        Some(
            malformed(
                "an agent may not declare its own intent: a bound that originates from the party being bounded cannot fail, so it bounds nothing"@,
            ),
        )
    } else if expires_at <= issued_at {
        Some(malformed("intent statement expires at or before it was issued"@))
    } else {
        None
    }
}

/// What verifying a statement under an anchor's key at a time gives.
pub open spec fn statement_verifies(s: StatementView, anchor_key: KeyView, now_unix: i64) -> Result<
    (),
    ErrorView,
> {
    match signed::decoded_signature(s.signature, "intent statement"@) {
        Err(e) => Err(e),
        Ok(sig) => if did::key_verifies(anchor_key, statement_digest(s), sig) is Err {
            Err(
                malformed(
                    "intent statement '"@ + s.intent_id + "' is not signed by this anchor"@,
                ),
            )
        } else if now_unix < s.issued_at {
            Err(
                malformed(
                    "intent statement '"@ + s.intent_id + "' is not valid until "@
                        + text::decimal_int(s.issued_at as int),
                ),
            )
        } else if now_unix >= s.expires_at {
            Err(
                malformed(
                    "intent statement '"@ + s.intent_id + "' expired at "@ + text::decimal_int(
                        s.expires_at as int,
                    ),
                ),
            )
        } else {
            Ok(())
        },
    }
}

fn malformed_claims(reason: String) -> (r: AgentCredsError)
    ensures
        r@ == malformed(reason@),
{
    AgentCredsError::MalformedClaims { reason }
}

impl IntentStatement {
    fn signing_payload(&self) -> (r: Vec<u8>)
        ensures
            r@ == statement_digest(self@),
    {
        let mut m: Vec<u8> = Vec::new();
        encoding::put_bytes(&mut m, "agentcreds-intent-statement-v1".as_bytes());
        assert(m@ =~= encoding::utf8("agentcreds-intent-statement-v1"@));
        encoding::put_text(&mut m, self.intent_id.as_str());
        encoding::put_text(&mut m, self.task_id.as_str());
        encoding::put_text(&mut m, self.subject_did.as_str());
        encoding::put_text(&mut m, self.statement.as_str());
        encoding::put_text(&mut m, self.declared_by.as_str());
        encoding::put_i64(&mut m, self.issued_at);
        encoding::put_i64(&mut m, self.expires_at);
        crypto::sha256(m.as_slice())
    }

    /// Declare an intent for `subject_did`, signed by the organization `anchor`.
    ///
    /// `declared_by` records the authority that set the task, and is refused if it equals
    /// `subject_did`.
    ///
    /// # Errors
    /// `MalformedClaims` if `declared_by == subject_did` or the validity window is empty;
    /// whatever the anchor's signer returns.
    pub fn declare(
        task_id: &str,
        subject_did: &str,
        statement: &str,
        declared_by: &str,
        intent_id: &str,
        issued_at: i64,
        expires_at: i64,
        anchor: &TrustAnchor,
    ) -> (r: Result<Self, AgentCredsError>)
        ensures
            declare_refused(subject_did@, declared_by@, issued_at, expires_at) is Some ==> r is Err
                && Some(r->Err_0@) == declare_refused(
                subject_did@,
                declared_by@,
                issued_at,
                expires_at,
            ),
            declare_refused(subject_did@, declared_by@, issued_at, expires_at) is None
                && anchor.in_software() && anchor.key().algorithm is Ed25519 ==> r is Ok,
            r is Ok ==> {
                let s = r->Ok_0@;
                &&& s.intent_id == intent_id@
                &&& s.task_id == task_id@
                &&& s.subject_did == subject_did@
                &&& s.statement == statement@
                &&& s.declared_by == declared_by@
                &&& s.issued_at == issued_at
                &&& s.expires_at == expires_at
                &&& exists|sig: Result<Vec<u8>, AgentCredsError>| #[trigger]
                    anchor.may_sign(statement_digest(s), sig) && sig is Ok && s.signature
                        == crypto::hex_text(sig->Ok_0@)
                &&& anchor.in_software() ==> forall|now_unix: i64|
                    issued_at <= now_unix < expires_at ==> #[trigger] statement_verifies(
                        s,
                        anchor.key(),
                        now_unix,
                    ) is Ok
            },
            declare_refused(subject_did@, declared_by@, issued_at, expires_at) is None
                && r is Err ==> anchor.may_sign(
                statement_digest(
                    StatementView {
                        intent_id: intent_id@,
                        task_id: task_id@,
                        subject_did: subject_did@,
                        statement: statement@,
                        declared_by: declared_by@,
                        issued_at,
                        expires_at,
                        signature: ""@,
                    },
                ),
                Err::<Vec<u8>, AgentCredsError>(r->Err_0),
            ),
    {
        if text::str_eq(declared_by, subject_did) {
            return Err(
                malformed_claims(
                    "an agent may not declare its own intent: a bound that originates from the party being bounded cannot fail, so it bounds nothing".to_owned(),
                ),
            );
        }
        if expires_at <= issued_at {
            return Err(
                malformed_claims("intent statement expires at or before it was issued".to_owned()),
            );
        }
        let mut s = IntentStatement {
            intent_id: intent_id.to_owned(),
            task_id: task_id.to_owned(),
            subject_did: subject_did.to_owned(),
            statement: statement.to_owned(),
            declared_by: declared_by.to_owned(),
            issued_at,
            expires_at,
            signature: String::new(),
        };
        let payload = s.signing_payload();
        let ghost unsigned = s@;
        let answer = anchor.sign(payload.as_slice());
        let ghost given = answer;
        match answer {
            Ok(sig) => {
                s.signature = signed::encode_signature(sig.as_slice());
                proof {
                    assert(statement_bytes(s@) == statement_bytes(unsigned));
                    assert(anchor.may_sign(statement_digest(s@), given));
                    crypto::lemma_hex_round_trip(sig@);
                }
                Ok(s)
            },
            Err(e) => {
                proof {
                    reveal_strlit("");
                    assert(unsigned.signature =~= ""@);
                }
                Err(e)
            },
        }
    }

    /// A stable digest identifying this exact statement, for evidence to reference. It covers
    /// every signed field.
    pub fn binding(&self) -> (r: String)
        ensures
            r@ == statement_binding(self@),
    {
        crypto::hex_encode(self.signing_payload().as_slice())
    }

    /// Verify the anchor signature and the validity window at `now_unix`.
    ///
    /// # Errors
    /// `InvalidVcProof` where the signature is not hexadecimal; `MalformedClaims` where it is
    /// not the anchor's, or the statement is not yet valid or has expired.
    pub fn verify(&self, anchor: &TrustAnchor, now_unix: i64) -> (r: Result<(), AgentCredsError>)
        ensures
            did::unit_view(r) == statement_verifies(self@, anchor.key(), now_unix),
    {
        let sig = match signed::decode_signature(self.signature.as_str(), "intent statement") {
            Ok(s) => s,
            Err(e) => {
                return Err(e);
            },
        };
        let mut reason = "intent statement '".to_owned();
        reason.append(self.intent_id.as_str());
        if anchor.verify_signature(self.signing_payload().as_slice(), sig.as_slice()).is_err() {
            reason.append("' is not signed by this anchor");
            return Err(malformed_claims(reason));
        }
        if now_unix < self.issued_at {
            reason.append("' is not valid until ");
            reason.append(text::i64_text(self.issued_at).as_str());
            return Err(malformed_claims(reason));
        }
        if now_unix >= self.expires_at {
            reason.append("' expired at ");
            reason.append(text::i64_text(self.expires_at).as_str());
            return Err(malformed_claims(reason));
        }
        Ok(())
    }
}

// -- Judgements and evidence ---------------------------------------------------------------------

/// One evaluator's judgement about an action, before it is signed.
#[derive(Debug, PartialEq, Eq)]
pub struct Judgement {
    /// Identifier of the evaluator: a model, a rules engine, or a human.
    pub evaluator: String,
    /// The evaluator's version.
    pub evaluator_version: String,
    /// How far this action sits from the declared intent: `0` (aligned) to `100` (unrelated).
    pub semantic_distance: u8,
    /// How sure the evaluator is of that distance: `0` (guessing) to `100` (certain).
    pub confidence: u8,
    /// Why the evaluator judged as it did. At most [`Judgement::MAX_RATIONALE`] bytes.
    pub rationale: String,
}

impl Judgement {
    /// Maximum rationale length in bytes.
    pub const MAX_RATIONALE: usize = 1024;
}

impl Clone for Judgement {
    fn clone(&self) -> (r: Self)
        ensures
            r.evaluator@ == self.evaluator@,
            r.evaluator_version@ == self.evaluator_version@,
            r.semantic_distance == self.semantic_distance,
            r.confidence == self.confidence,
            r.rationale@ == self.rationale@,
    {
        Judgement {
            evaluator: self.evaluator.clone(),
            evaluator_version: self.evaluator_version.clone(),
            semantic_distance: self.semantic_distance,
            confidence: self.confidence,
            rationale: self.rationale.clone(),
        }
    }
}

/// Signed evidence that an evaluator judged one action aligned with one intent.
#[derive(Debug, PartialEq, Eq)]
pub struct AlignmentEvidence {
    /// Unique id, remembered to enforce one-time reliance.
    pub evidence_id: String,
    /// The kind of gate that this evidence satisfies ([`Gate::INTENT`]).
    pub kind: String,
    /// Digest of the [`IntentStatement`] this judgement was made against.
    pub intent_binding: String,
    /// Digest of the action: tool, parameters, resource and on-behalf-of principal.
    pub action_binding: String,
    /// Identifier of the evaluator that made the judgement.
    pub evaluator: String,
    /// The evaluator's version at the time of judgement.
    pub evaluator_version: String,
    /// How far this action sits from the declared intent, `0` to `100`.
    pub semantic_distance: u8,
    /// The evaluator's confidence in that distance, `0` to `100`.
    pub confidence: u8,
    /// The evaluator's stated reason. Carried for the audit record, never re-evaluated.
    pub rationale: String,
    /// Expiry, Unix seconds. Evidence at or after this instant is refused.
    pub expires_at: i64,
    /// Anchor signature over the signing payload, hex-encoded.
    pub signature: String,
}

/// Alignment evidence as mathematical values.
#[verifier::ext_equal]
pub struct AlignmentView {
    pub evidence_id: Seq<char>,
    pub kind: Seq<char>,
    pub intent_binding: Seq<char>,
    pub action_binding: Seq<char>,
    pub evaluator: Seq<char>,
    pub evaluator_version: Seq<char>,
    pub semantic_distance: u8,
    pub confidence: u8,
    pub rationale: Seq<char>,
    pub expires_at: i64,
    pub signature: Seq<char>,
}

impl View for AlignmentEvidence {
    type V = AlignmentView;

    open spec fn view(&self) -> AlignmentView {
        AlignmentView {
            evidence_id: self.evidence_id@,
            kind: self.kind@,
            intent_binding: self.intent_binding@,
            action_binding: self.action_binding@,
            evaluator: self.evaluator@,
            evaluator_version: self.evaluator_version@,
            semantic_distance: self.semantic_distance,
            confidence: self.confidence,
            rationale: self.rationale@,
            expires_at: self.expires_at,
            signature: self.signature@,
        }
    }
}

impl Clone for AlignmentEvidence {
    fn clone(&self) -> (r: Self)
        ensures
            r@ == self@,
    {
        AlignmentEvidence {
            evidence_id: self.evidence_id.clone(),
            kind: self.kind.clone(),
            intent_binding: self.intent_binding.clone(),
            action_binding: self.action_binding.clone(),
            evaluator: self.evaluator.clone(),
            evaluator_version: self.evaluator_version.clone(),
            semantic_distance: self.semantic_distance,
            confidence: self.confidence,
            rationale: self.rationale.clone(),
            expires_at: self.expires_at,
            signature: self.signature.clone(),
        }
    }
}

/// Thresholds a relying party applies to alignment evidence.
#[derive(Debug, Clone, Copy, PartialEq, Eq, Structural)]
pub struct AlignmentPolicy {
    /// Minimum number of distinct evaluators that must independently judge the action
    /// aligned. Distinctness is by evaluator, ignoring version.
    pub quorum: usize,
    /// Maximum permitted `semantic_distance`. `None` records drift without gating on it.
    pub max_distance: Option<u8>,
    /// Minimum permitted `confidence`. `None` accepts any confidence.
    pub min_confidence: Option<u8>,
}

impl AlignmentPolicy {
    /// A single evaluator, with an explicit distance ceiling and confidence floor.
    pub fn single(max_distance: u8, min_confidence: u8) -> (r: Self)
        ensures
            r == (AlignmentPolicy {
                quorum: 1,
                max_distance: Some(max_distance),
                min_confidence: Some(min_confidence),
            }),
    {
        AlignmentPolicy {
            quorum: 1,
            max_distance: Some(max_distance),
            min_confidence: Some(min_confidence),
        }
    }

    /// Require `n` distinct evaluators to agree, with a distance ceiling and confidence
    /// floor.
    pub fn quorum_of(n: usize, max_distance: u8, min_confidence: u8) -> (r: Self)
        ensures
            r == (AlignmentPolicy {
                quorum: n,
                max_distance: Some(max_distance),
                min_confidence: Some(min_confidence),
            }),
    {
        AlignmentPolicy {
            quorum: n,
            max_distance: Some(max_distance),
            min_confidence: Some(min_confidence),
        }
    }
}

/// What a successful quorum verification found, for the decision record.
#[derive(Debug, PartialEq, Eq)]
pub struct AlignmentVerdict {
    /// The distinct evaluators that agreed, as `evaluator@version`, in input order.
    pub evaluators: Vec<String>,
    /// The worst (largest) distance among the accepted evidence.
    pub worst_distance: u8,
    /// The weakest (smallest) confidence among the accepted evidence.
    pub weakest_confidence: u8,
}

/// A verdict as mathematical values.
#[verifier::ext_equal]
pub struct VerdictView {
    pub evaluators: Seq<Seq<char>>,
    pub worst_distance: u8,
    pub weakest_confidence: u8,
}

impl View for AlignmentVerdict {
    type V = VerdictView;

    open spec fn view(&self) -> VerdictView {
        VerdictView {
            evaluators: text::views(self.evaluators@),
            worst_distance: self.worst_distance,
            weakest_confidence: self.weakest_confidence,
        }
    }
}

impl Clone for AlignmentVerdict {
    fn clone(&self) -> (r: Self)
        ensures
            r@ == self@,
    {
        AlignmentVerdict {
            evaluators: text::strings_clone(&self.evaluators),
            worst_distance: self.worst_distance,
            weakest_confidence: self.weakest_confidence,
        }
    }
}

/// The bytes of evidence that are hashed and signed: all of it but the signature.
pub open spec fn alignment_bytes(e: AlignmentView) -> Seq<u8> {
    encoding::utf8("agentcreds-alignment-evidence-v1"@) + encoding::text_field(e.evidence_id)
        + encoding::text_field(e.kind) + encoding::text_field(e.intent_binding)
        + encoding::text_field(e.action_binding) + encoding::text_field(e.evaluator)
        + encoding::text_field(e.evaluator_version) + encoding::text_field(e.rationale)
        + seq![e.semantic_distance, e.confidence] + encoding::le64_signed(e.expires_at)
}

/// The digest that evidence is signed over.
pub open spec fn alignment_digest(e: AlignmentView) -> Seq<u8> {
    crypto::sha256_digest(alignment_bytes(e))
}

/// Why a judgement may not be attested.
pub open spec fn judgement_refused(j: Judgement) -> Option<ErrorView> {
    if j.semantic_distance > 100 {
        Some(malformed("semantic_distance must be 0..=100"@))
    } else if j.confidence > 100 {
        Some(malformed("confidence must be 0..=100"@))
    } else if j.evaluator@.len() == 0 || j.evaluator_version@.len() == 0 {
        Some(
            malformed(
                "evaluator and evaluator_version are required: an unversioned verdict cannot be traced to what produced it"@,
            ),
        )
    } else if encoding::utf8(j.rationale@).len() > Judgement::MAX_RATIONALE {
        Some(
            malformed(
                "rationale is "@ + text::decimal(encoding::utf8(j.rationale@).len())
                    + " bytes, over the "@ + text::decimal(1024) + " limit"@,
            ),
        )
    } else {
        None
    }
}

/// Who a judgement is attributed to: `evaluator@version`.
pub open spec fn attributed(e: AlignmentView) -> Seq<char> {
    e.evaluator + "@"@ + e.evaluator_version
}

/// What verifying evidence for an intent, an action and an agent gives.
pub open spec fn alignment_verifies(
    e: AlignmentView,
    s: StatementView,
    a: ActionView,
    agent_did: Seq<char>,
    anchor_key: KeyView,
    now_unix: i64,
    max_distance: Option<u8>,
) -> Result<(), ErrorView> {
    match statement_verifies(s, anchor_key, now_unix) {
        Err(err) => Err(err),
        Ok(_) => if s.subject_did != agent_did {
            Err(
                rules::denied(
                    a,
                    "intent statement '"@ + s.intent_id + "' was declared for "@ + s.subject_did
                        + " but the acting agent is "@ + agent_did,
                ),
            )
        } else if e.kind != "intent-alignment"@ {
            Err(
                rules::denied(
                    a,
                    "alignment evidence has kind '"@ + e.kind + "', expected '"@
                        + "intent-alignment"@ + "'"@,
                ),
            )
        } else {
            match signed::decoded_signature(e.signature, "alignment evidence"@) {
                Err(err) => Err(err),
                Ok(sig) => if did::key_verifies(anchor_key, alignment_digest(e), sig) is Err {
                    Err(
                        rules::denied(
                            a,
                            "alignment evidence '"@ + e.evidence_id
                                + "' is not signed by this anchor"@,
                        ),
                    )
                } else if now_unix >= e.expires_at {
                    Err(
                        rules::denied(
                            a,
                            "alignment evidence '"@ + e.evidence_id + "' expired at "@
                                + text::decimal_int(e.expires_at as int),
                        ),
                    )
                } else if e.intent_binding != statement_binding(s) {
                    Err(
                        rules::denied(
                            a,
                            "alignment evidence was issued against a different intent statement"@,
                        ),
                    )
                } else if e.action_binding != action::approval_binding_of(a) {
                    Err(
                        rules::denied(
                            a,
                            "alignment evidence was issued against a different action (tool, parameters, resource or principal differ)"@,
                        ),
                    )
                } else if max_distance is Some && e.semantic_distance > max_distance->0 {
                    Err(
                        rules::denied(
                            a,
                            "action is "@ + text::decimal(e.semantic_distance as nat)
                                + " from the declared intent, over the permitted "@
                                + text::decimal(max_distance->0 as nat)
                                + " (semantic drift)"@,
                        ),
                    )
                } else {
                    Ok(())
                },
            }
        },
    }
}

/// What a quorum is checked against.
#[verifier::ext_equal]
pub struct AlignmentSetting {
    pub statement: StatementView,
    pub action: ActionView,
    pub agent_did: Seq<char>,
    pub anchor_key: KeyView,
    pub now_unix: i64,
    pub policy: AlignmentPolicy,
}

/// Whether an evaluator is among those of some evidence.
pub open spec fn judged_by(evidence: Seq<AlignmentView>, evaluator: Seq<char>) -> bool {
    exists|i: int| 0 <= i < evidence.len() && (#[trigger] evidence[i]).evaluator == evaluator
}

/// Why one more item of evidence does not count, after some that do.
pub open spec fn item_refused(
    before: Seq<AlignmentView>,
    e: AlignmentView,
    g: AlignmentSetting,
) -> Option<ErrorView> {
    match alignment_verifies(
        e,
        g.statement,
        g.action,
        g.agent_did,
        g.anchor_key,
        g.now_unix,
        g.policy.max_distance,
    ) {
        Err(err) => Some(err),
        Ok(_) => if g.policy.min_confidence is Some && e.confidence < g.policy.min_confidence->0 {
            Some(
                rules::denied(
                    g.action,
                    "evaluator "@ + attributed(e) + " reported confidence "@ + text::decimal(
                        e.confidence as nat,
                    ) + ", under the required "@ + text::decimal(
                        g.policy.min_confidence->0 as nat,
                    ),
                ),
            )
        } else if judged_by(before, e.evaluator) {
            Some(
                rules::denied(
                    g.action,
                    "evaluator '"@ + e.evaluator
                        + "' judged this action more than once; a quorum requires distinct evaluators, and repeated verdicts from one are not independent"@,
                ),
            )
        } else {
            None
        },
    }
}

/// The verdict of some evidence, or the error of the first item that does not count.
pub open spec fn judged(evidence: Seq<AlignmentView>, g: AlignmentSetting) -> Result<
    VerdictView,
    ErrorView,
>
    decreases evidence.len(),
{
    if evidence.len() == 0 {
        Ok(
            VerdictView {
                evaluators: Seq::<Seq<char>>::empty(),
                worst_distance: 0,
                weakest_confidence: 100,
            },
        )
    } else {
        match judged(evidence.drop_last(), g) {
            Err(e) => Err(e),
            Ok(v) => match item_refused(evidence.drop_last(), evidence.last(), g) {
                Some(e) => Err(e),
                None => Ok(
                    VerdictView {
                        evaluators: v.evaluators.push(attributed(evidence.last())),
                        worst_distance: if v.worst_distance >= evidence.last().semantic_distance {
                            v.worst_distance
                        } else {
                            evidence.last().semantic_distance
                        },
                        weakest_confidence: if v.weakest_confidence
                            <= evidence.last().confidence {
                            v.weakest_confidence
                        } else {
                            evidence.last().confidence
                        },
                    },
                ),
            },
        }
    }
}

/// What verifying a quorum gives.
pub open spec fn quorum_outcome(evidence: Seq<AlignmentView>, g: AlignmentSetting) -> Result<
    VerdictView,
    ErrorView,
> {
    if g.policy.quorum == 0 {
        Err(
            malformed(
                "an alignment quorum of 0 would accept an action with no judgement at all"@,
            ),
        )
    } else {
        match judged(evidence, g) {
            Err(e) => Err(e),
            Ok(v) => if v.evaluators.len() < g.policy.quorum {
                Err(
                    rules::denied(
                        g.action,
                        text::decimal(v.evaluators.len()) + " distinct evaluator(s) agreed, "@
                            + text::decimal(g.policy.quorum as nat) + " required"@,
                    ),
                )
            } else {
                Ok(v)
            },
        }
    }
}

/// The views of a sequence of evidence.
pub open spec fn alignment_views(v: Seq<AlignmentEvidence>) -> Seq<AlignmentView> {
    v.map_values(|e: AlignmentEvidence| e@)
}

/// A verdict result by view.
pub open spec fn verdict_view(r: Result<AlignmentVerdict, AgentCredsError>) -> Result<
    VerdictView,
    ErrorView,
> {
    match r {
        Ok(v) => Ok(v@),
        Err(e) => Err(e@),
    }
}

fn deny(action: &Action, reason: String) -> (r: AgentCredsError)
    ensures
        r@ == rules::denied(action@, reason@),
{
    AgentCredsError::ActionDenied { action: action.tool.clone(), reason }
}

impl AlignmentEvidence {
    fn signing_payload(&self) -> (r: Vec<u8>)
        ensures
            r@ == alignment_digest(self@),
    {
        let mut m: Vec<u8> = Vec::new();
        encoding::put_bytes(&mut m, "agentcreds-alignment-evidence-v1".as_bytes());
        assert(m@ =~= encoding::utf8("agentcreds-alignment-evidence-v1"@));
        encoding::put_text(&mut m, self.evidence_id.as_str());
        encoding::put_text(&mut m, self.kind.as_str());
        encoding::put_text(&mut m, self.intent_binding.as_str());
        encoding::put_text(&mut m, self.action_binding.as_str());
        encoding::put_text(&mut m, self.evaluator.as_str());
        encoding::put_text(&mut m, self.evaluator_version.as_str());
        encoding::put_text(&mut m, self.rationale.as_str());
        let ghost before = m@;
        m.push(self.semantic_distance);
        m.push(self.confidence);
        assert(m@ =~= before + seq![self.semantic_distance, self.confidence]);
        encoding::put_i64(&mut m, self.expires_at);
        crypto::sha256(m.as_slice())
    }

    fn check_judgement(judgement: &Judgement) -> (r: Result<(), AgentCredsError>)
        ensures
            match r {
                Ok(_) => judgement_refused(*judgement) is None,
                Err(e) => judgement_refused(*judgement) == Some(e@),
            },
    {
        if judgement.semantic_distance > 100 {
            return Err(malformed_claims("semantic_distance must be 0..=100".to_owned()));
        }
        if judgement.confidence > 100 {
            return Err(malformed_claims("confidence must be 0..=100".to_owned()));
        }
        if judgement.evaluator.as_str().unicode_len() == 0
            || judgement.evaluator_version.as_str().unicode_len() == 0 {
            return Err(
                malformed_claims(
                    "evaluator and evaluator_version are required: an unversioned verdict cannot be traced to what produced it".to_owned(),
                ),
            );
        }
        let len: usize = judgement.rationale.as_str().as_bytes().len();
        if len > Judgement::MAX_RATIONALE {
            let mut reason = "rationale is ".to_owned();
            reason.append(text::u64_text(len as u64).as_str());
            reason.append(" bytes, over the ");
            reason.append(text::u64_text(1024).as_str());
            reason.append(" limit");
            return Err(malformed_claims(reason));
        }
        Ok(())
    }

    /// Mint evidence that an evaluator judged `action` aligned with `intent`, valid until
    /// `expires_at`, signed by the organization `anchor`.
    ///
    /// # Errors
    /// `MalformedClaims` if a number of the judgement exceeds 100, the evaluator or its
    /// version is missing or the rationale is too long; whatever the anchor's signer returns.
    pub fn attest(
        intent: &IntentStatement,
        action: &Action,
        judgement: Judgement,
        evidence_id: &str,
        expires_at: i64,
        anchor: &TrustAnchor,
    ) -> (r: Result<Self, AgentCredsError>)
        ensures
            judgement_refused(judgement) is Some ==> r is Err && Some(r->Err_0@)
                == judgement_refused(judgement),
            judgement_refused(judgement) is None && anchor.in_software()
                && anchor.key().algorithm is Ed25519 ==> r is Ok,
            r is Ok ==> {
                let e = r->Ok_0@;
                &&& e.evidence_id == evidence_id@
                &&& e.kind == "intent-alignment"@
                &&& e.intent_binding == statement_binding(intent@)
                &&& e.action_binding == action::approval_binding_of(action@)
                &&& e.evaluator == judgement.evaluator@
                &&& e.evaluator_version == judgement.evaluator_version@
                &&& e.semantic_distance == judgement.semantic_distance
                &&& e.confidence == judgement.confidence
                &&& e.rationale == judgement.rationale@
                &&& e.expires_at == expires_at
                &&& exists|sig: Result<Vec<u8>, AgentCredsError>| #[trigger]
                    anchor.may_sign(alignment_digest(e), sig) && sig is Ok && e.signature
                        == crypto::hex_text(sig->Ok_0@)
                &&& anchor.in_software() ==> forall|now_unix: i64, max_distance: Option<u8>|
                    {
                        &&& statement_verifies(intent@, anchor.key(), now_unix) is Ok
                        &&& now_unix < expires_at
                        &&& max_distance is Some ==> e.semantic_distance <= max_distance->0
                    } ==> #[trigger] alignment_verifies(
                        e,
                        intent@,
                        action@,
                        intent@.subject_did,
                        anchor.key(),
                        now_unix,
                        max_distance,
                    ) is Ok
            },
            judgement_refused(judgement) is None && r is Err ==> anchor.may_sign(
                alignment_digest(
                    AlignmentView {
                        evidence_id: evidence_id@,
                        kind: "intent-alignment"@,
                        intent_binding: statement_binding(intent@),
                        action_binding: action::approval_binding_of(action@),
                        evaluator: judgement.evaluator@,
                        evaluator_version: judgement.evaluator_version@,
                        semantic_distance: judgement.semantic_distance,
                        confidence: judgement.confidence,
                        rationale: judgement.rationale@,
                        expires_at,
                        signature: ""@,
                    },
                ),
                Err::<Vec<u8>, AgentCredsError>(r->Err_0),
            ),
    {
        match Self::check_judgement(&judgement) {
            Ok(_) => {},
            Err(e) => {
                return Err(e);
            },
        }
        let mut ev = AlignmentEvidence {
            evidence_id: evidence_id.to_owned(),
            kind: Gate::INTENT.to_owned(),
            intent_binding: intent.binding(),
            action_binding: action.approval_binding(),
            evaluator: judgement.evaluator,
            evaluator_version: judgement.evaluator_version,
            semantic_distance: judgement.semantic_distance,
            confidence: judgement.confidence,
            rationale: judgement.rationale,
            expires_at,
            signature: String::new(),
        };
        let payload = ev.signing_payload();
        let ghost unsigned = ev@;
        let answer = anchor.sign(payload.as_slice());
        let ghost given = answer;
        match answer {
            Ok(sig) => {
                ev.signature = signed::encode_signature(sig.as_slice());
                proof {
                    assert(alignment_bytes(ev@) == alignment_bytes(unsigned));
                    assert(anchor.may_sign(alignment_digest(ev@), given));
                    crypto::lemma_hex_round_trip(sig@);
                }
                Ok(ev)
            },
            Err(e) => {
                proof {
                    reveal_strlit("");
                    assert(unsigned.signature =~= ""@);
                }
                Err(e)
            },
        }
    }

    /// `evaluator@version`, the identity recorded in an [`AlignmentVerdict`].
    pub fn attribution(&self) -> (r: String)
        ensures
            r@ == attributed(self@),
    {
        let mut s = self.evaluator.clone();
        s.append("@");
        s.append(self.evaluator_version.as_str());
        s
    }

    /// Verify that `policy.quorum` distinct evaluators independently judged this action
    /// aligned with this intent, within the distance ceiling and confidence floor.
    ///
    /// Distinctness is by evaluator, ignoring version. Every supplied item must verify:
    /// invalid evidence is not skipped.
    ///
    /// # Errors
    /// `MalformedClaims` for a quorum of 0; the error of the first item that does not count;
    /// `ActionDenied` where too few distinct evaluators agreed.
    pub fn verify_quorum(
        evidence: &[AlignmentEvidence],
        intent: &IntentStatement,
        action: &Action,
        agent_did: &str,
        anchor: &TrustAnchor,
        now_unix: i64,
        policy: &AlignmentPolicy,
    ) -> (r: Result<AlignmentVerdict, AgentCredsError>)
        ensures
            verdict_view(r) == quorum_outcome(
                alignment_views(evidence@),
                (AlignmentSetting {
                    statement: intent@,
                    action: action@,
                    agent_did: agent_did@,
                    anchor_key: anchor.key(),
                    now_unix,
                    policy: *policy,
                }),
            ),
    {
        if policy.quorum == 0 {
            return Err(
                malformed_claims(
                    "an alignment quorum of 0 would accept an action with no judgement at all".to_owned(),
                ),
            );
        }
        let ghost all = alignment_views(evidence@);
        let ghost g = AlignmentSetting {
            statement: intent@,
            action: action@,
            agent_did: agent_did@,
            anchor_key: anchor.key(),
            now_unix,
            policy: *policy,
        };
        let mut evaluators: Vec<String> = Vec::new();
        let mut worst_distance: u8 = 0;
        let mut weakest_confidence: u8 = 100;
        assert(text::views(evaluators@) =~= Seq::<Seq<char>>::empty());
        for i in 0..evidence.len()
            invariant
                all == alignment_views(evidence@),
                g == (AlignmentSetting {
                    statement: intent@,
                    action: action@,
                    agent_did: agent_did@,
                    anchor_key: anchor.key(),
                    now_unix,
                    policy: *policy,
                }),
                judged(all.take(i as int), g) == Ok::<VerdictView, ErrorView>(
                    VerdictView {
                        evaluators: text::views(evaluators@),
                        worst_distance,
                        weakest_confidence,
                    },
                ),
                policy.quorum > 0,
        {
            let ev = &evidence[i];
            let ghost before = text::views(evaluators@);
            proof {
                assert(all[i as int] == ev@);
                assert(all.take(i + 1).drop_last() =~= all.take(i as int));
                assert(all.take(i + 1).last() == ev@);
            }
            match Self::check_item(
                evidence,
                i,
                intent,
                action,
                agent_did,
                anchor,
                now_unix,
                policy,
            ) {
                Ok(_) => {},
                Err(e) => {
                    proof {
                        lemma_refusal_sticks(all, i + 1, g);
                    }
                    return Err(e);
                },
            }
            let name = ev.attribution();
            let ghost shown = name@;
            evaluators.push(name);
            assert(text::views(evaluators@) =~= before.push(shown));
            if worst_distance < ev.semantic_distance {
                worst_distance = ev.semantic_distance;
            }
            if weakest_confidence > ev.confidence {
                weakest_confidence = ev.confidence;
            }
        }
        assert(all.take(all.len() as int) =~= all);
        if evaluators.len() < policy.quorum {
            let mut reason = text::u64_text(evaluators.len() as u64);
            reason.append(" distinct evaluator(s) agreed, ");
            reason.append(text::u64_text(policy.quorum as u64).as_str());
            reason.append(" required");
            return Err(deny(action, reason));
        }
        Ok(AlignmentVerdict { evaluators, worst_distance, weakest_confidence })
    }

    /// Checks item `i` of some evidence, after those before it.
    fn check_item(
        evidence: &[AlignmentEvidence],
        i: usize,
        intent: &IntentStatement,
        action: &Action,
        agent_did: &str,
        anchor: &TrustAnchor,
        now_unix: i64,
        policy: &AlignmentPolicy,
    ) -> (r: Result<(), AgentCredsError>)
        requires
            i < evidence@.len(),
        ensures
            match r {
                Ok(_) => item_refused(
                    alignment_views(evidence@).take(i as int),
                    evidence@[i as int]@,
                    (AlignmentSetting {
                        statement: intent@,
                        action: action@,
                        agent_did: agent_did@,
                        anchor_key: anchor.key(),
                        now_unix,
                        policy: *policy,
                    }),
                ) is None,
                Err(e) => item_refused(
                    alignment_views(evidence@).take(i as int),
                    evidence@[i as int]@,
                    (AlignmentSetting {
                        statement: intent@,
                        action: action@,
                        agent_did: agent_did@,
                        anchor_key: anchor.key(),
                        now_unix,
                        policy: *policy,
                    }),
                ) == Some(e@),
            },
    {
        let ghost before = alignment_views(evidence@).take(i as int);
        let ev = &evidence[i];
        match ev.verify(intent, action, agent_did, anchor, now_unix, policy.max_distance) {
            Ok(_) => {},
            Err(e) => {
                return Err(e);
            },
        }
        if let Some(min) = policy.min_confidence {
            if ev.confidence < min {
                let mut reason = "evaluator ".to_owned();
                reason.append(ev.attribution().as_str());
                reason.append(" reported confidence ");
                reason.append(text::u64_text(ev.confidence as u64).as_str());
                reason.append(", under the required ");
                reason.append(text::u64_text(min as u64).as_str());
                return Err(deny(action, reason));
            }
        }
        for j in 0..i
            invariant
                i < evidence@.len(),
                before == alignment_views(evidence@).take(i as int),
                ev == evidence@[i as int],
                forall|k: int| 0 <= k < j ==> (#[trigger] before[k]).evaluator != ev@.evaluator,
                alignment_verifies(
                    ev@,
                    intent@,
                    action@,
                    agent_did@,
                    anchor.key(),
                    now_unix,
                    policy.max_distance,
                ) is Ok,
                policy.min_confidence is Some ==> ev.confidence >= policy.min_confidence->0,
        {
            assert(before[j as int] == evidence@[j as int]@);
            if text::str_eq(evidence[j].evaluator.as_str(), ev.evaluator.as_str()) {
                let mut reason = "evaluator '".to_owned();
                reason.append(ev.evaluator.as_str());
                reason.append(
                    "' judged this action more than once; a quorum requires distinct evaluators, and repeated verdicts from one are not independent",
                );
                assert(judged_by(before, ev@.evaluator));
                return Err(deny(action, reason));
            }
        }
        Ok(())
    }

    /// Verify this evidence against the intent, the action and the acting agent: the intent
    /// verifies and was declared for the agent; the evidence is of the right kind, signed by
    /// the anchor and not expired; it was issued against this intent and this action; and its
    /// distance is within `max_distance`, where one is given.
    ///
    /// One-time reliance is not enforced here: pass the evidence id to a
    /// [`ConsumedApprovals`](crate::delegation::ConsumedApprovals) ledger.
    ///
    /// # Errors
    /// As [`IntentStatement::verify`]; `InvalidVcProof` where the signature is not
    /// hexadecimal; `ActionDenied` where any other check fails.
    pub fn verify(
        &self,
        intent: &IntentStatement,
        action: &Action,
        agent_did: &str,
        anchor: &TrustAnchor,
        now_unix: i64,
        max_distance: Option<u8>,
    ) -> (r: Result<(), AgentCredsError>)
        ensures
            did::unit_view(r) == alignment_verifies(
                self@,
                intent@,
                action@,
                agent_did@,
                anchor.key(),
                now_unix,
                max_distance,
            ),
    {
        match intent.verify(anchor, now_unix) {
            Ok(_) => {},
            Err(e) => {
                return Err(e);
            },
        }
        if !text::str_eq(intent.subject_did.as_str(), agent_did) {
            let mut reason = "intent statement '".to_owned();
            reason.append(intent.intent_id.as_str());
            reason.append("' was declared for ");
            reason.append(intent.subject_did.as_str());
            reason.append(" but the acting agent is ");
            reason.append(agent_did);
            return Err(deny(action, reason));
        }
        if !text::str_eq(self.kind.as_str(), Gate::INTENT) {
            let mut reason = "alignment evidence has kind '".to_owned();
            reason.append(self.kind.as_str());
            reason.append("', expected '");
            reason.append(Gate::INTENT);
            reason.append("'");
            return Err(deny(action, reason));
        }
        let sig = match signed::decode_signature(self.signature.as_str(), "alignment evidence") {
            Ok(s) => s,
            Err(e) => {
                return Err(e);
            },
        };
        if anchor.verify_signature(self.signing_payload().as_slice(), sig.as_slice()).is_err() {
            let mut reason = "alignment evidence '".to_owned();
            reason.append(self.evidence_id.as_str());
            reason.append("' is not signed by this anchor");
            return Err(deny(action, reason));
        }
        if now_unix >= self.expires_at {
            let mut reason = "alignment evidence '".to_owned();
            reason.append(self.evidence_id.as_str());
            reason.append("' expired at ");
            reason.append(text::i64_text(self.expires_at).as_str());
            return Err(deny(action, reason));
        }
        if !text::str_eq(self.intent_binding.as_str(), intent.binding().as_str()) {
            return Err(
                deny(
                    action,
                    "alignment evidence was issued against a different intent statement".to_owned(),
                ),
            );
        }
        if !text::str_eq(self.action_binding.as_str(), action.approval_binding().as_str()) {
            return Err(
                deny(
                    action,
                    "alignment evidence was issued against a different action (tool, parameters, resource or principal differ)".to_owned(),
                ),
            );
        }
        if let Some(max) = max_distance {
            if self.semantic_distance > max {
                let mut reason = "action is ".to_owned();
                reason.append(text::u64_text(self.semantic_distance as u64).as_str());
                reason.append(" from the declared intent, over the permitted ");
                reason.append(text::u64_text(max as u64).as_str());
                reason.append(" (semantic drift)");
                return Err(deny(action, reason));
            }
        }
        Ok(())
    }

    /// [`verify`](Self::verify) at the current wall-clock time.
    ///
    /// # Errors
    /// As [`verify`](Self::verify).
    pub fn verify_now(
        &self,
        intent: &IntentStatement,
        action: &Action,
        agent_did: &str,
        anchor: &TrustAnchor,
        max_distance: Option<u8>,
    ) -> (r: Result<(), AgentCredsError>)
        ensures
            exists|now_unix: i64|
                did::unit_view(r) == #[trigger] alignment_verifies(
                    self@,
                    intent@,
                    action@,
                    agent_did@,
                    anchor.key(),
                    now_unix,
                    max_distance,
                ),
    {
        let now: i64 = Timestamp::now().timestamp();
        self.verify(intent, action, agent_did, anchor, now, max_distance)
    }
}

// -- Laws -------------------------------------------------------------------------------------------

proof fn lemma_refusal_sticks(evidence: Seq<AlignmentView>, n: int, g: AlignmentSetting)
    requires
        0 <= n <= evidence.len(),
        judged(evidence.take(n), g) is Err,
    ensures
        judged(evidence, g) == judged(evidence.take(n), g),
    decreases evidence.len(),
{
    if n == evidence.len() {
        assert(evidence.take(n) =~= evidence);
    } else {
        assert(evidence.drop_last().take(n) =~= evidence.take(n));
        lemma_refusal_sticks(evidence.drop_last(), n, g);
    }
}

/// One item that does not verify, or is not confident enough, fails the whole set: invalid
/// evidence is never skipped.
pub proof fn one_invalid_item_fails_the_set(
    evidence: Seq<AlignmentView>,
    g: AlignmentSetting,
    i: int,
)
    requires
        0 <= i < evidence.len(),
        alignment_verifies(
            evidence[i],
            g.statement,
            g.action,
            g.agent_did,
            g.anchor_key,
            g.now_unix,
            g.policy.max_distance,
        ) is Err || (g.policy.min_confidence is Some && evidence[i].confidence
            < g.policy.min_confidence->0),
    ensures
        quorum_outcome(evidence, g) is Err,
{
    let head = evidence.take(i + 1);
    assert(head.last() == evidence[i]);
    assert(judged(head, g) is Err);
    lemma_refusal_sticks(evidence, i + 1, g);
}

/// One evaluator counts once: two items of the same evaluator, of whatever versions, fail
/// the set.
pub proof fn evaluators_are_distinct(
    evidence: Seq<AlignmentView>,
    g: AlignmentSetting,
    i: int,
    j: int,
)
    requires
        0 <= i < j < evidence.len(),
        evidence[i].evaluator == evidence[j].evaluator,
    ensures
        quorum_outcome(evidence, g) is Err,
{
    let head = evidence.take(j + 1);
    assert(head.last() == evidence[j]);
    assert(head.drop_last()[i] == evidence[i]);
    assert(judged_by(head.drop_last(), head.last().evaluator));
    assert(judged(head, g) is Err);
    lemma_refusal_sticks(evidence, j + 1, g);
}

/// A quorum that is reached has as many evaluators as items, at least as many as the policy
/// asks for, and its verdict bounds every item: no item is further from the intent than the
/// worst distance or less confident than the weakest confidence.
pub proof fn a_verdict_bounds_its_evidence(evidence: Seq<AlignmentView>, g: AlignmentSetting, i: int)
    requires
        quorum_outcome(evidence, g) is Ok,
        0 <= i < evidence.len(),
    ensures
        quorum_outcome(evidence, g)->Ok_0.evaluators.len() == evidence.len(),
        quorum_outcome(evidence, g)->Ok_0.evaluators[i] == attributed(evidence[i]),
        evidence.len() >= g.policy.quorum,
        evidence[i].semantic_distance <= quorum_outcome(evidence, g)->Ok_0.worst_distance,
        evidence[i].confidence >= quorum_outcome(evidence, g)->Ok_0.weakest_confidence,
{
    lemma_verdict(evidence, g);
}

proof fn lemma_verdict(evidence: Seq<AlignmentView>, g: AlignmentSetting)
    requires
        judged(evidence, g) is Ok,
    ensures
        judged(evidence, g)->Ok_0.evaluators.len() == evidence.len(),
        forall|i: int|
            #![trigger evidence[i]]
            0 <= i < evidence.len() ==> {
                &&& judged(evidence, g)->Ok_0.evaluators[i] == attributed(evidence[i])
                &&& evidence[i].semantic_distance <= judged(evidence, g)->Ok_0.worst_distance
                &&& evidence[i].confidence >= judged(evidence, g)->Ok_0.weakest_confidence
            },
    decreases evidence.len(),
{
    if evidence.len() > 0 {
        let rest = evidence.drop_last();
        lemma_verdict(rest, g);
        assert forall|i: int|
            #![trigger evidence[i]]
            0 <= i < evidence.len() implies {
            &&& judged(evidence, g)->Ok_0.evaluators[i] == attributed(evidence[i])
            &&& evidence[i].semantic_distance <= judged(evidence, g)->Ok_0.worst_distance
            &&& evidence[i].confidence >= judged(evidence, g)->Ok_0.weakest_confidence
        } by {
            if i < rest.len() {
                assert(rest[i] == evidence[i]);
            }
        }
    }
}

/// Evidence that passes a distance threshold passes every looser one, and none at all.
pub proof fn a_looser_threshold_still_passes(
    e: AlignmentView,
    s: StatementView,
    a: ActionView,
    agent_did: Seq<char>,
    anchor_key: KeyView,
    now_unix: i64,
    max: u8,
    looser: Option<u8>,
)
    requires
        alignment_verifies(e, s, a, agent_did, anchor_key, now_unix, Some(max)) is Ok,
        looser is Some ==> max <= looser->0,
    ensures
        alignment_verifies(e, s, a, agent_did, anchor_key, now_unix, looser) is Ok,
{
}

/// Evidence never verifies for an agent that the intent was not declared for.
pub proof fn an_intent_binds_only_its_subject(
    e: AlignmentView,
    s: StatementView,
    a: ActionView,
    agent_did: Seq<char>,
    anchor_key: KeyView,
    now_unix: i64,
    max_distance: Option<u8>,
)
    requires
        s.subject_did != agent_did,
    ensures
        alignment_verifies(e, s, a, agent_did, anchor_key, now_unix, max_distance) is Err,
{
}

/// Whether a statement fits the machine: its texts can be counted in 64 bits.
pub open spec fn statement_fits(s: StatementView) -> bool {
    &&& action::encodable(s.intent_id)
    &&& action::encodable(s.task_id)
    &&& action::encodable(s.subject_did)
    &&& action::encodable(s.statement)
    &&& action::encodable(s.declared_by)
}

/// The signed bytes of a statement behind their tag, one field after the other.
spec fn statement_fields(s: StatementView) -> Seq<u8> {
    encoding::text_field(s.intent_id) + (encoding::text_field(s.task_id) + (encoding::text_field(
        s.subject_did,
    ) + (encoding::text_field(s.statement) + (encoding::text_field(s.declared_by) + (
    encoding::le64_signed(s.issued_at) + encoding::le64_signed(s.expires_at))))))
}

proof fn lemma_statement_fields(s: StatementView)
    ensures
        statement_bytes(s) == encoding::utf8("agentcreds-intent-statement-v1"@) + statement_fields(s),
{
    assert(statement_bytes(s) =~= encoding::utf8("agentcreds-intent-statement-v1"@)
        + statement_fields(s));
}

/// A binding covers every signed field of a statement: statements with one binding differ at
/// most in their signatures, unless SHA-256 fails on the two. So altering the text, the subject
/// or any other field invalidates evidence issued against what was declared.
pub proof fn a_binding_covers_the_whole_statement(a: StatementView, b: StatementView)
    requires
        statement_fits(a),
        statement_fits(b),
        statement_binding(a) == statement_binding(b),
    ensures
        a == (StatementView { signature: a.signature, ..b }) || crypto::breaks_on(
            set![statement_bytes(a), statement_bytes(b)],
        ),
{
    let inputs = set![statement_bytes(a), statement_bytes(b)];
    crypto::lemma_hex_round_trip(statement_digest(a));
    crypto::lemma_hex_round_trip(statement_digest(b));
    if !crypto::breaks_on(inputs) {
        assert(inputs.contains(statement_bytes(a)) && inputs.contains(statement_bytes(b)));
        assert(statement_bytes(a) == statement_bytes(b));
        let d = encoding::utf8("agentcreds-intent-statement-v1"@);
        let none = Seq::<u8>::empty();
        lemma_statement_fields(a);
        lemma_statement_fields(b);
        encoding::lemma_split(d, d, statement_fields(a), statement_fields(b));
        let (ea, eb) = (encoding::le64_signed(a.expires_at), encoding::le64_signed(b.expires_at));
        let (ia, ib) = (
            encoding::le64_signed(a.issued_at) + ea,
            encoding::le64_signed(b.issued_at) + eb,
        );
        let (da, db) = (
            encoding::text_field(a.declared_by) + ia,
            encoding::text_field(b.declared_by) + ib,
        );
        let (sa, sb) = (
            encoding::text_field(a.statement) + da,
            encoding::text_field(b.statement) + db,
        );
        let (ua, ub) = (
            encoding::text_field(a.subject_did) + sa,
            encoding::text_field(b.subject_did) + sb,
        );
        let (ta, tb) = (encoding::text_field(a.task_id) + ua, encoding::text_field(b.task_id) + ub);
        encoding::lemma_text_field_prefix(a.intent_id, b.intent_id, ta, tb);
        encoding::lemma_text_field_prefix(a.task_id, b.task_id, ua, ub);
        encoding::lemma_text_field_prefix(a.subject_did, b.subject_did, sa, sb);
        encoding::lemma_text_field_prefix(a.statement, b.statement, da, db);
        encoding::lemma_text_field_prefix(a.declared_by, b.declared_by, ia, ib);
        encoding::lemma_le64_signed_prefix(a.issued_at, b.issued_at, ea, eb);
        assert(ea + none =~= ea);
        assert(eb + none =~= eb);
        encoding::lemma_le64_signed_prefix(a.expires_at, b.expires_at, none, none);
    }
}

/// Evidence cannot be moved: where it verifies for two intents and actions, the intents are the
/// same but for their signatures and the actions agree in tool, parameters, resource and
/// principal, unless SHA-256 fails on what is hashed for the bindings.
pub proof fn evidence_cannot_be_moved(
    e: AlignmentView,
    s: StatementView,
    a: ActionView,
    t: StatementView,
    b: ActionView,
    agent_did: Seq<char>,
    other_did: Seq<char>,
    anchor_key: KeyView,
    now_unix: i64,
    max_distance: Option<u8>,
)
    requires
        statement_fits(s),
        statement_fits(t),
        action::encodable(a.tool) && action::encodable(a.parameters) && action::encodable_opt(
            a.resource,
        ) && action::encodable_opt(a.acting_for),
        action::encodable(b.tool) && action::encodable(b.parameters) && action::encodable_opt(
            b.resource,
        ) && action::encodable_opt(b.acting_for),
        alignment_verifies(e, s, a, agent_did, anchor_key, now_unix, max_distance) is Ok,
        alignment_verifies(e, t, b, other_did, anchor_key, now_unix, max_distance) is Ok,
    ensures
        s == (StatementView { signature: s.signature, ..t }) || crypto::breaks_on(
            set![statement_bytes(s), statement_bytes(t)],
        ),
        (a.tool == b.tool && a.parameters == b.parameters && a.resource == b.resource
            && a.acting_for == b.acting_for) || crypto::breaks_on(
            set![action::approval_bytes(a), action::approval_bytes(b)],
        ),
{
    a_binding_covers_the_whole_statement(s, t);
    let inputs = set![action::approval_bytes(a), action::approval_bytes(b)];
    crypto::lemma_hex_round_trip(crypto::sha256_digest(action::approval_bytes(a)));
    crypto::lemma_hex_round_trip(crypto::sha256_digest(action::approval_bytes(b)));
    if !crypto::breaks_on(inputs) {
        assert(inputs.contains(action::approval_bytes(a)));
        assert(inputs.contains(action::approval_bytes(b)));
        assert(action::approval_bytes(a) == action::approval_bytes(b));
        action::approval_bytes_are_injective(a, b);
    }
}

// -- What accepted statements and evidence show ---------------------------------------------------------

/// A statement is accepted exactly where it carries the hex of a signature that verifies under the
/// anchor's key over its digest, and the time is from its issue to before its expiry.
pub proof fn an_accepted_statement_is_signed_and_current(
    s: StatementView,
    anchor_key: KeyView,
    now_unix: i64,
)
    ensures
        statement_verifies(s, anchor_key, now_unix) is Ok <==> {
            &&& crypto::is_hex(s.signature)
            &&& did::key_verifies(
                anchor_key,
                statement_digest(s),
                crypto::hex_bytes(s.signature),
            ) is Ok
            &&& s.issued_at <= now_unix < s.expires_at
        },
        statement_verifies(s, anchor_key, now_unix) is Err ==> statement_verifies(
            s,
            anchor_key,
            now_unix,
        )->Err_0 is InvalidVcProof || statement_verifies(
            s,
            anchor_key,
            now_unix,
        )->Err_0 is MalformedClaims,
{
}

/// Evidence is accepted exactly where the statement is, the statement is about the acting agent, the
/// evidence is of the alignment kind, signed under the anchor's key and not expired, bound to that
/// statement and to the action at hand, and no further from the intent than permitted.
pub proof fn accepted_evidence_is_about_the_intent_and_the_action(
    e: AlignmentView,
    s: StatementView,
    a: ActionView,
    agent_did: Seq<char>,
    anchor_key: KeyView,
    now_unix: i64,
    max_distance: Option<u8>,
)
    ensures
        alignment_verifies(e, s, a, agent_did, anchor_key, now_unix, max_distance) is Ok <==> {
            &&& statement_verifies(s, anchor_key, now_unix) is Ok
            &&& s.subject_did == agent_did
            &&& e.kind == "intent-alignment"@
            &&& crypto::is_hex(e.signature)
            &&& did::key_verifies(
                anchor_key,
                alignment_digest(e),
                crypto::hex_bytes(e.signature),
            ) is Ok
            &&& now_unix < e.expires_at
            &&& e.intent_binding == statement_binding(s)
            &&& e.action_binding == action::approval_binding_of(a)
            &&& max_distance matches Some(max) ==> e.semantic_distance <= max
        },
        ({
            let r = alignment_verifies(e, s, a, agent_did, anchor_key, now_unix, max_distance);
            statement_verifies(s, anchor_key, now_unix) is Ok && r is Err ==> (
            r->Err_0 is ActionDenied && r->Err_0->ActionDenied_action == a.tool)
                || r->Err_0 is InvalidVcProof
        }),
{
}

/// Whether evidence fits the machine.
pub open spec fn alignment_fits(e: AlignmentView) -> bool {
    &&& action::encodable(e.evidence_id)
    &&& action::encodable(e.kind)
    &&& action::encodable(e.intent_binding)
    &&& action::encodable(e.action_binding)
    &&& action::encodable(e.evaluator)
    &&& action::encodable(e.evaluator_version)
    &&& action::encodable(e.rationale)
}

spec fn alignment_tail(e: AlignmentView) -> Seq<u8> {
    encoding::text_field(e.evaluator_version) + (encoding::text_field(e.rationale) + (
    seq![e.semantic_distance, e.confidence] + encoding::le64_signed(e.expires_at)))
}

spec fn nested_alignment_bytes(e: AlignmentView) -> Seq<u8> {
    encoding::utf8("agentcreds-alignment-evidence-v1"@) + (encoding::text_field(e.evidence_id) + (
    encoding::text_field(e.kind) + (encoding::text_field(e.intent_binding) + (encoding::text_field(
        e.action_binding,
    ) + (encoding::text_field(e.evaluator) + alignment_tail(e))))))
}

proof fn lemma_alignment_nested(e: AlignmentView)
    ensures
        alignment_bytes(e) == nested_alignment_bytes(e),
{
    let p1 = encoding::utf8("agentcreds-alignment-evidence-v1"@);
    let p2 = encoding::text_field(e.evidence_id);
    let p3 = encoding::text_field(e.kind);
    let p4 = encoding::text_field(e.intent_binding);
    let p5 = encoding::text_field(e.action_binding);
    let p6 = encoding::text_field(e.evaluator);
    let p7 = encoding::text_field(e.evaluator_version);
    let p8 = encoding::text_field(e.rationale);
    let p9 = seq![e.semantic_distance, e.confidence];
    let p10 = encoding::le64_signed(e.expires_at);
    encoding::lemma_assoc(p1 + p2 + p3 + p4 + p5 + p6 + p7 + p8, p9, p10);
    encoding::lemma_assoc(p1 + p2 + p3 + p4 + p5 + p6 + p7, p8, p9 + p10);
    encoding::lemma_assoc(p1 + p2 + p3 + p4 + p5 + p6, p7, p8 + (p9 + p10));
    encoding::lemma_assoc(p1 + p2 + p3 + p4 + p5, p6, p7 + (p8 + (p9 + p10)));
    encoding::lemma_assoc_six(p1, p2, p3, p4, p5, p6 + (p7 + (p8 + (p9 + p10))));
}

/// An evidence digest binds the whole judgement: evidence with one digest is the same but for its
/// signature, unless SHA-256 fails on the two. So neither the distance nor the confidence nor anything
/// else can be changed under a signature.
pub proof fn an_alignment_digest_binds_the_judgement(a: AlignmentView, b: AlignmentView)
    requires
        alignment_fits(a),
        alignment_fits(b),
        alignment_digest(a) == alignment_digest(b),
    ensures
        a == (AlignmentView { signature: a.signature, ..b }) || crypto::breaks_on(
            set![alignment_bytes(a), alignment_bytes(b)],
        ),
{
    let inputs = set![alignment_bytes(a), alignment_bytes(b)];
    if !crypto::breaks_on(inputs) {
        assert(inputs.contains(alignment_bytes(a)) && inputs.contains(alignment_bytes(b)));
        lemma_alignment_nested(a);
        lemma_alignment_nested(b);
        let none = Seq::<u8>::empty();
        let d = encoding::utf8("agentcreds-alignment-evidence-v1"@);
        let (t_a, t_b) = (alignment_tail(a), alignment_tail(b));
        let (e_a, e_b) = (
            encoding::text_field(a.evaluator) + t_a,
            encoding::text_field(b.evaluator) + t_b,
        );
        let (c_a, c_b) = (
            encoding::text_field(a.action_binding) + e_a,
            encoding::text_field(b.action_binding) + e_b,
        );
        let (i_a, i_b) = (
            encoding::text_field(a.intent_binding) + c_a,
            encoding::text_field(b.intent_binding) + c_b,
        );
        let (k_a, k_b) = (
            encoding::text_field(a.kind) + i_a,
            encoding::text_field(b.kind) + i_b,
        );
        encoding::lemma_split(
            d,
            d,
            encoding::text_field(a.evidence_id) + k_a,
            encoding::text_field(b.evidence_id) + k_b,
        );
        encoding::lemma_text_field_prefix(a.evidence_id, b.evidence_id, k_a, k_b);
        encoding::lemma_text_field_prefix(a.kind, b.kind, i_a, i_b);
        encoding::lemma_text_field_prefix(a.intent_binding, b.intent_binding, c_a, c_b);
        encoding::lemma_text_field_prefix(a.action_binding, b.action_binding, e_a, e_b);
        encoding::lemma_text_field_prefix(a.evaluator, b.evaluator, t_a, t_b);
        let (x_a, x_b) = (
            encoding::le64_signed(a.expires_at),
            encoding::le64_signed(b.expires_at),
        );
        let (s_a, s_b) = (
            seq![a.semantic_distance, a.confidence],
            seq![b.semantic_distance, b.confidence],
        );
        encoding::lemma_text_field_prefix(
            a.evaluator_version,
            b.evaluator_version,
            encoding::text_field(a.rationale) + (s_a + x_a),
            encoding::text_field(b.rationale) + (s_b + x_b),
        );
        encoding::lemma_text_field_prefix(a.rationale, b.rationale, s_a + x_a, s_b + x_b);
        encoding::lemma_split(s_a, s_b, x_a, x_b);
        assert(s_a[0] == s_b[0] && s_a[1] == s_b[1]);
        assert(x_a + none =~= x_a);
        assert(x_b + none =~= x_b);
        encoding::lemma_le64_signed_prefix(a.expires_at, b.expires_at, none, none);
    }
}

/// An intent can be declared exactly where somebody else than its subject declares it and it expires
/// after it was issued.
pub proof fn an_intent_is_declared_by_another(
    subject_did: Seq<char>,
    declared_by: Seq<char>,
    issued_at: i64,
    expires_at: i64,
)
    ensures
        declare_refused(subject_did, declared_by, issued_at, expires_at) is None <==> declared_by
            != subject_did && issued_at < expires_at,
        declare_refused(subject_did, declared_by, issued_at, expires_at) is Some ==> declare_refused(
            subject_did,
            declared_by,
            issued_at,
            expires_at,
        )->0 is MalformedClaims,
{
}

/// A judgement is taken exactly where its distance and its confidence are at most 100, it names its
/// evaluator and the evaluator's version, and its rationale is no longer than the limit.
pub proof fn a_judgement_is_on_its_scales(j: Judgement)
    ensures
        judgement_refused(j) is None <==> {
            &&& j.semantic_distance <= 100
            &&& j.confidence <= 100
            &&& j.evaluator@.len() > 0
            &&& j.evaluator_version@.len() > 0
            &&& encoding::utf8(j.rationale@).len() <= 1024
        },
        judgement_refused(j) is Some ==> judgement_refused(j)->0 is MalformedClaims,
{
}

/// Whether an item of evidence counts under a policy.
pub open spec fn counts(e: AlignmentView, g: AlignmentSetting) -> bool {
    &&& alignment_verifies(
        e,
        g.statement,
        g.action,
        g.agent_did,
        g.anchor_key,
        g.now_unix,
        g.policy.max_distance,
    ) is Ok
    &&& g.policy.min_confidence is Some ==> e.confidence >= g.policy.min_confidence->0
}

proof fn lemma_judged(evidence: Seq<AlignmentView>, g: AlignmentSetting)
    ensures
        judged(evidence, g) is Ok <==> {
            &&& forall|i: int| 0 <= i < evidence.len() ==> counts(#[trigger] evidence[i], g)
            &&& forall|i: int, j: int|
                0 <= i < j < evidence.len() ==> (#[trigger] evidence[i]).evaluator != (
                #[trigger] evidence[j]).evaluator
        },
        judged(evidence, g) is Ok ==> {
            let v = judged(evidence, g)->Ok_0;
            &&& v.evaluators.len() == evidence.len()
            &&& v.worst_distance == 0 || exists|i: int|
                0 <= i < evidence.len() && (#[trigger] evidence[i]).semantic_distance
                    == v.worst_distance
            &&& v.weakest_confidence == 100 || exists|i: int|
                0 <= i < evidence.len() && (#[trigger] evidence[i]).confidence
                    == v.weakest_confidence
            &&& v.weakest_confidence <= 100
        },
    decreases evidence.len(),
{
    if evidence.len() > 0 {
        let p = evidence.drop_last();
        let n = p.len() as int;
        let last = evidence.last();
        lemma_judged(p, g);
        assert(evidence[n] == last);
        assert forall|i: int| 0 <= i < n implies p[i] == #[trigger] evidence[i] by {}
        if judged(evidence, g) is Ok {
            assert(judged(p, g) is Ok);
            assert(item_refused(p, last, g) is None);
            assert forall|i: int| 0 <= i < evidence.len() implies counts(
                #[trigger] evidence[i],
                g,
            ) by {
                if i < n {
                    assert(counts(p[i], g));
                }
            }
            assert forall|i: int, j: int| 0 <= i < j < evidence.len() implies (
            #[trigger] evidence[i]).evaluator != (#[trigger] evidence[j]).evaluator by {
                assert(p[i] == evidence[i]);
                if j < n {
                    assert(p[j] == evidence[j]);
                } else {
                    assert(!judged_by(p, last.evaluator));
                }
            }
            let u = judged(p, g)->Ok_0;
            let v = judged(evidence, g)->Ok_0;
            if v.worst_distance == u.worst_distance && u.worst_distance != 0 {
                let i = choose|i: int|
                    0 <= i < p.len() && (#[trigger] p[i]).semantic_distance == u.worst_distance;
                assert(evidence[i].semantic_distance == v.worst_distance);
            }
            if v.weakest_confidence == u.weakest_confidence && u.weakest_confidence != 100 {
                let i = choose|i: int|
                    0 <= i < p.len() && (#[trigger] p[i]).confidence == u.weakest_confidence;
                assert(evidence[i].confidence == v.weakest_confidence);
            }
        }
        if (forall|i: int| 0 <= i < evidence.len() ==> counts(#[trigger] evidence[i], g)) && (forall|
            i: int,
            j: int,
        |
            0 <= i < j < evidence.len() ==> (#[trigger] evidence[i]).evaluator != (
            #[trigger] evidence[j]).evaluator) {
            assert forall|i: int| 0 <= i < p.len() implies counts(#[trigger] p[i], g) by {
                assert(counts(evidence[i], g));
            }
            assert forall|i: int, j: int| 0 <= i < j < p.len() implies (#[trigger] p[i]).evaluator
                != (#[trigger] p[j]).evaluator by {
                assert(evidence[i].evaluator != evidence[j].evaluator);
            }
            assert(counts(evidence[n], g));
            assert(!judged_by(p, last.evaluator)) by {
                if judged_by(p, last.evaluator) {
                    let i = choose|i: int|
                        0 <= i < p.len() && (#[trigger] p[i]).evaluator == last.evaluator;
                    assert(evidence[i].evaluator != evidence[n].evaluator);
                }
            }
        }
    }
}

/// A quorum is reached exactly where the policy asks for at least one evaluator, there are as many
/// items as it asks for, every item counts, and no two are of one evaluator.
pub proof fn a_quorum_is_of_distinct_agreeing_evaluators(
    evidence: Seq<AlignmentView>,
    g: AlignmentSetting,
)
    ensures
        quorum_outcome(evidence, g) is Ok <==> {
            &&& 0 < g.policy.quorum <= evidence.len()
            &&& forall|i: int| 0 <= i < evidence.len() ==> counts(#[trigger] evidence[i], g)
            &&& forall|i: int, j: int|
                0 <= i < j < evidence.len() ==> (#[trigger] evidence[i]).evaluator != (
                #[trigger] evidence[j]).evaluator
        },
{
    lemma_judged(evidence, g);
}

/// The verdict of a quorum is drawn from its items: the worst distance is that of one of them and the
/// weakest confidence that of one of them, where these are on their scales.
pub proof fn a_verdict_is_drawn_from_its_evidence(
    evidence: Seq<AlignmentView>,
    g: AlignmentSetting,
)
    requires
        quorum_outcome(evidence, g) is Ok,
        forall|i: int| 0 <= i < evidence.len() ==> (#[trigger] evidence[i]).confidence <= 100,
    ensures
        exists|i: int|
            0 <= i < evidence.len() && (#[trigger] evidence[i]).semantic_distance == quorum_outcome(
                evidence,
                g,
            )->Ok_0.worst_distance,
        exists|i: int|
            0 <= i < evidence.len() && (#[trigger] evidence[i]).confidence == quorum_outcome(
                evidence,
                g,
            )->Ok_0.weakest_confidence,
{
    lemma_judged(evidence, g);
    a_verdict_bounds_its_evidence(evidence, g, 0);
    let v = quorum_outcome(evidence, g)->Ok_0;
    if v.worst_distance == 0 {
        assert(evidence[0].semantic_distance == 0);
    }
    if v.weakest_confidence == 100 {
        assert(evidence[0].confidence == 100);
    }
}

/// What an evaluator is named by is its name and its version, with an at sign between.
pub proof fn an_evaluator_is_named_with_its_version(e: AlignmentView)
    ensures
        attributed(e).len() == e.evaluator.len() + 1 + e.evaluator_version.len(),
        attributed(e).take(e.evaluator.len() as int) == e.evaluator,
        attributed(e)[e.evaluator.len() as int] == '@',
        attributed(e).skip(e.evaluator.len() as int + 1) == e.evaluator_version,
{
    reveal_strlit("@");
    assert(attributed(e).take(e.evaluator.len() as int) =~= e.evaluator);
    assert(attributed(e).skip(e.evaluator.len() as int + 1) =~= e.evaluator_version);
}

} // verus!
