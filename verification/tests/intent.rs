use agentcreds_core::approval::ConsumedApprovals;
use agentcreds_core::delegation::Action;
use agentcreds_core::did::TrustAnchor;
use agentcreds_core::intent::{AlignmentEvidence, AlignmentPolicy, IntentStatement, Judgement};

const AGENT: &str = "did:key:zAgent";
const HUMAN: &str = "did:key:zHumanPrincipal";
const NOW: i64 = 1_500;

fn anchor() -> TrustAnchor {
    TrustAnchor::generate().expect("anchor")
}

fn intent_for(a: &TrustAnchor, subject: &str) -> IntentStatement {
    IntentStatement::declare(
        "task-7",
        subject,
        "Reconcile September invoices",
        HUMAN,
        "intent-1",
        1_000,
        9_000,
        a,
    )
    .expect("declare")
}

fn action() -> Action {
    Action::new("tool:search", "{\"q\":\"invoices\"}")
}

fn judgement(evaluator: &str, dist: u8, conf: u8) -> Judgement {
    Judgement {
        evaluator: evaluator.into(),
        evaluator_version: "2026-08-01".into(),
        semantic_distance: dist,
        confidence: conf,
        rationale: "searching invoices serves the reconciliation task".into(),
    }
}

fn evidence(a: &TrustAnchor, i: &IntentStatement, act: &Action, dist: u8) -> AlignmentEvidence {
    AlignmentEvidence::attest(
        i,
        act,
        judgement("evaluator:policy-llm", dist, 90),
        "ev-1",
        9_000,
        a,
    )
    .expect("attest")
}

fn evidence_from(
    a: &TrustAnchor,
    i: &IntentStatement,
    act: &Action,
    evaluator: &str,
    id: &str,
    dist: u8,
    conf: u8,
) -> AlignmentEvidence {
    AlignmentEvidence::attest(i, act, judgement(evaluator, dist, conf), id, 9_000, a)
        .expect("attest")
}

#[test]
fn aligned_action_with_valid_evidence_is_accepted() {
    let a = anchor();
    let i = intent_for(&a, AGENT);
    let act = action();
    let ev = evidence(&a, &i, &act, 12);
    ev.verify(&i, &act, AGENT, &a, NOW, Some(30))
        .expect("aligned action should verify");
}

#[test]
fn an_agent_cannot_declare_its_own_intent() {
    let a = anchor();
    let err = IntentStatement::declare(
        "task-7",
        AGENT,
        "do whatever I want",
        AGENT,
        "intent-x",
        1_000,
        9_000,
        &a,
    );
    assert!(
        err.is_err(),
        "an intent whose declarer is the subject bounds nothing and must be refused"
    );
}

#[test]
fn evidence_does_not_transfer_to_a_different_action() {
    let a = anchor();
    let i = intent_for(&a, AGENT);
    let judged = action();
    let ev = evidence(&a, &i, &judged, 5);

    let other = Action::new("tool:transfer", "{\"amount\":100000}");
    assert!(
        ev.verify(&i, &other, AGENT, &a, NOW, Some(30)).is_err(),
        "evidence judged for one action must not authorize another"
    );
}

#[test]
fn evidence_does_not_transfer_across_principals() {
    let a = anchor();
    let i = intent_for(&a, AGENT);
    let for_alice = action().on_behalf_of("did:key:zAlice");
    let ev = evidence(&a, &i, &for_alice, 5);

    let for_bob = action().on_behalf_of("did:key:zBob");
    assert!(
        ev.verify(&i, &for_bob, AGENT, &a, NOW, Some(30)).is_err(),
        "evidence bound to one principal must not satisfy another"
    );
}

#[test]
fn intent_does_not_transfer_to_another_agent() {
    let a = anchor();
    let i = intent_for(&a, AGENT);
    let act = action();
    let ev = evidence(&a, &i, &act, 5);
    assert!(
        ev.verify(&i, &act, "did:key:zOtherAgent", &a, NOW, Some(30))
            .is_err(),
        "an intent declared for one agent must not bind another"
    );
}

#[test]
fn rewriting_the_intent_text_invalidates_the_evidence() {
    let a = anchor();
    let i = intent_for(&a, AGENT);
    let act = action();
    let ev = evidence(&a, &i, &act, 5);

    let mut tampered = i.clone();
    tampered.statement = "Exfiltrate the invoice archive".into();
    assert!(
        tampered.verify(&a, NOW).is_err(),
        "a rewritten statement must fail its own signature check"
    );
    assert!(
        ev.verify(&tampered, &act, AGENT, &a, NOW, Some(30))
            .is_err(),
        "evidence must not carry over to a rewritten intent"
    );
}

#[test]
fn semantic_distance_cannot_be_lowered_in_transit() {
    let a = anchor();
    let i = intent_for(&a, AGENT);
    let act = action();
    let mut ev = evidence(&a, &i, &act, 90);
    ev.semantic_distance = 1;
    assert!(
        ev.verify(&i, &act, AGENT, &a, NOW, Some(30)).is_err(),
        "editing the signed distance must invalidate the signature"
    );
}

#[test]
fn drift_beyond_the_threshold_is_refused() {
    let a = anchor();
    let i = intent_for(&a, AGENT);
    let act = action();
    let ev = evidence(&a, &i, &act, 80);

    assert!(
        ev.verify(&i, &act, AGENT, &a, NOW, Some(30)).is_err(),
        "distance 80 must not pass a threshold of 30"
    );
    ev.verify(&i, &act, AGENT, &a, NOW, Some(90))
        .expect("the same evidence passes a looser threshold");
    ev.verify(&i, &act, AGENT, &a, NOW, None)
        .expect("no threshold means distance is recorded but not gating");
}

#[test]
fn expired_evidence_is_refused() {
    let a = anchor();
    let i = intent_for(&a, AGENT);
    let act = action();
    let ev = evidence(&a, &i, &act, 5);
    assert!(
        ev.verify(&i, &act, AGENT, &a, 9_001, Some(30)).is_err(),
        "evidence at or after its expiry must be refused"
    );
}

#[test]
fn expired_or_premature_intent_is_refused() {
    let a = anchor();
    let i = intent_for(&a, AGENT);
    let act = action();
    let ev = evidence(&a, &i, &act, 5);
    assert!(
        ev.verify(&i, &act, AGENT, &a, 9_500, Some(30)).is_err(),
        "an expired intent must fail even with valid evidence"
    );
    assert!(
        ev.verify(&i, &act, AGENT, &a, 500, Some(30)).is_err(),
        "an intent used before it is valid must be refused"
    );
}

#[test]
fn another_anchor_does_not_validate() {
    let a = anchor();
    let other = anchor();
    let i = intent_for(&a, AGENT);
    let act = action();
    let ev = evidence(&a, &i, &act, 5);
    assert!(
        ev.verify(&i, &act, AGENT, &other, NOW, Some(30)).is_err(),
        "evidence must not verify under an unrelated anchor"
    );
}

#[test]
fn evidence_is_one_time_through_the_shared_ledger() {
    let a = anchor();
    let i = intent_for(&a, AGENT);
    let act = action();
    let ev = evidence(&a, &i, &act, 5);

    let mut consumed = ConsumedApprovals::new();
    assert!(consumed.try_consume(&ev.evidence_id), "first use consumes");
    assert!(
        !consumed.try_consume(&ev.evidence_id),
        "a second use of the same evidence id must be refused"
    );
}

#[test]
fn distance_above_100_is_rejected_at_mint() {
    let a = anchor();
    let i = intent_for(&a, AGENT);
    assert!(
        AlignmentEvidence::attest(&i, &action(), judgement("e", 101, 50), "ev", 9_000, &a)
            .is_err(),
        "semantic_distance is a 0..=100 scale"
    );
}

#[test]
fn an_empty_validity_window_is_rejected() {
    let a = anchor();
    assert!(
        IntentStatement::declare("t", AGENT, "s", HUMAN, "i", 9_000, 9_000, &a).is_err(),
        "a statement that expires when issued is never valid"
    );
}

#[test]
fn a_quorum_of_distinct_evaluators_is_accepted() {
    let a = anchor();
    let i = intent_for(&a, AGENT);
    let act = action();
    let set = [
        evidence_from(&a, &i, &act, "eval:alpha", "ev-1", 10, 90),
        evidence_from(&a, &i, &act, "eval:beta", "ev-2", 25, 80),
        evidence_from(&a, &i, &act, "eval:gamma", "ev-3", 18, 95),
    ];
    let policy = AlignmentPolicy::quorum_of(3, 30, 70);
    let v = AlignmentEvidence::verify_quorum(&set, &i, &act, AGENT, &a, NOW, &policy)
        .expect("three distinct evaluators agreeing should pass");

    assert_eq!(v.evaluators.len(), 3);
    assert_eq!(
        v.worst_distance, 25,
        "the verdict reports the WORST distance"
    );
    assert_eq!(
        v.weakest_confidence, 80,
        "the verdict reports the WEAKEST confidence"
    );
    assert!(
        v.evaluators[0].ends_with("@2026-08-01"),
        "attribution carries the version"
    );
}

#[test]
fn one_evaluator_cannot_satisfy_a_quorum_by_signing_repeatedly() {
    let a = anchor();
    let i = intent_for(&a, AGENT);
    let act = action();
    let set = [
        evidence_from(&a, &i, &act, "eval:alpha", "ev-1", 10, 90),
        evidence_from(&a, &i, &act, "eval:alpha", "ev-2", 10, 90),
        evidence_from(&a, &i, &act, "eval:alpha", "ev-3", 10, 90),
    ];
    let policy = AlignmentPolicy::quorum_of(3, 30, 70);
    assert!(
        AlignmentEvidence::verify_quorum(&set, &i, &act, AGENT, &a, NOW, &policy).is_err(),
        "three verdicts from one evaluator are not three independent judgements"
    );
}

#[test]
fn different_versions_of_one_evaluator_are_not_independent() {
    let a = anchor();
    let i = intent_for(&a, AGENT);
    let act = action();
    let mut second = judgement("eval:alpha", 10, 90);
    second.evaluator_version = "2026-09-01".into();
    let set = [
        evidence_from(&a, &i, &act, "eval:alpha", "ev-1", 10, 90),
        AlignmentEvidence::attest(&i, &act, second, "ev-2", 9_000, &a).expect("attest"),
    ];
    let policy = AlignmentPolicy::quorum_of(2, 30, 70);
    assert!(
        AlignmentEvidence::verify_quorum(&set, &i, &act, AGENT, &a, NOW, &policy).is_err(),
        "two revisions of the same model do not fail independently"
    );
}

#[test]
fn too_few_evaluators_is_refused() {
    let a = anchor();
    let i = intent_for(&a, AGENT);
    let act = action();
    let set = [evidence_from(&a, &i, &act, "eval:alpha", "ev-1", 10, 90)];
    let policy = AlignmentPolicy::quorum_of(3, 30, 70);
    assert!(
        AlignmentEvidence::verify_quorum(&set, &i, &act, AGENT, &a, NOW, &policy).is_err(),
        "one verdict must not satisfy a quorum of three"
    );
}

#[test]
fn one_invalid_item_fails_the_whole_set() {
    let a = anchor();
    let other = anchor();
    let i = intent_for(&a, AGENT);
    let act = action();
    let forged = evidence_from(&other, &i, &act, "eval:gamma", "ev-3", 10, 90);
    let set = [
        evidence_from(&a, &i, &act, "eval:alpha", "ev-1", 10, 90),
        evidence_from(&a, &i, &act, "eval:beta", "ev-2", 10, 90),
        forged,
    ];
    let policy = AlignmentPolicy::quorum_of(2, 30, 70);
    assert!(
        AlignmentEvidence::verify_quorum(&set, &i, &act, AGENT, &a, NOW, &policy).is_err(),
        "an unverifiable item must fail the set, not be skipped"
    );
}

#[test]
fn a_quorum_of_zero_is_refused() {
    let a = anchor();
    let i = intent_for(&a, AGENT);
    let act = action();
    let policy = AlignmentPolicy {
        quorum: 0,
        max_distance: Some(30),
        min_confidence: Some(70),
    };
    assert!(
        AlignmentEvidence::verify_quorum(&[], &i, &act, AGENT, &a, NOW, &policy).is_err(),
        "a quorum of zero would accept an action nothing judged"
    );
}

#[test]
fn confidence_below_the_floor_is_refused() {
    let a = anchor();
    let i = intent_for(&a, AGENT);
    let act = action();
    let set = [evidence_from(&a, &i, &act, "eval:alpha", "ev-1", 5, 20)];
    assert!(
        AlignmentEvidence::verify_quorum(
            &set,
            &i,
            &act,
            AGENT,
            &a,
            NOW,
            &AlignmentPolicy::single(30, 70)
        )
        .is_err(),
        "a confident-looking distance from an unconfident evaluator must not pass"
    );
    AlignmentEvidence::verify_quorum(
        &set,
        &i,
        &act,
        AGENT,
        &a,
        NOW,
        &AlignmentPolicy::single(30, 10),
    )
    .expect("the same evidence passes a lower confidence floor");
}

#[test]
fn confidence_and_rationale_and_version_are_signed() {
    let a = anchor();
    let i = intent_for(&a, AGENT);
    let act = action();
    let base = evidence_from(&a, &i, &act, "eval:alpha", "ev-1", 5, 30);

    for mutate in [
        (|e: &mut AlignmentEvidence| e.confidence = 99) as fn(&mut AlignmentEvidence),
        |e: &mut AlignmentEvidence| e.evaluator_version = "1999-01-01".into(),
        |e: &mut AlignmentEvidence| e.rationale = "because I said so".into(),
    ] {
        let mut ev = base.clone();
        mutate(&mut ev);
        assert!(
            ev.verify(&i, &act, AGENT, &a, NOW, Some(30)).is_err(),
            "editing a signed field must invalidate the evidence"
        );
    }
}

#[test]
fn an_unversioned_evaluator_is_refused_at_mint() {
    let a = anchor();
    let i = intent_for(&a, AGENT);
    let mut j = judgement("eval:alpha", 5, 90);
    j.evaluator_version = String::new();
    assert!(
        AlignmentEvidence::attest(&i, &action(), j, "ev", 9_000, &a).is_err(),
        "a verdict with no version cannot be traced to what produced it"
    );
}

#[test]
fn an_oversized_rationale_is_refused() {
    let a = anchor();
    let i = intent_for(&a, AGENT);
    let mut j = judgement("eval:alpha", 5, 90);
    j.rationale = "x".repeat(Judgement::MAX_RATIONALE + 1);
    assert!(
        AlignmentEvidence::attest(&i, &action(), j, "ev", 9_000, &a).is_err(),
        "unbounded evaluator text must not reach a signed receipt"
    );
}
