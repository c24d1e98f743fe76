use agentcreds_core::approval::{
    ApprovalEvidence, ApproverDirectory, ApproverEntry, ConsumedApprovals, Gate,
};
use agentcreds_core::delegation::Action;
use agentcreds_core::did::{AgentIdentity, DidMethod, TrustAnchor};
use agentcreds_core::error::AgentCredsError;
use agentcreds_core::time::Timestamp;

fn now_unix() -> i64 {
    chrono::Utc::now().timestamp()
}

fn at(secs: i64) -> Timestamp {
    Timestamp::from_unix(secs, 0).unwrap()
}
fn action_alice() -> Action {
    Action::new("tool:wire_funds", "amount=5000").on_behalf_of("did:web:alice.example")
}
fn future_unix() -> i64 {
    now_unix() + 3600
}

#[test]
fn anchor_evidence_verifies_for_its_action() {
    let anchor = TrustAnchor::generate().unwrap();
    let action = action_alice();
    let ev =
        ApprovalEvidence::approve(&action, "approver@acme", "ap-1", future_unix(), &anchor)
            .unwrap();
    assert!(ev.verify(&action, &anchor, now_unix()).is_ok());
    assert_eq!(ev.kind, Gate::APPROVAL);
    assert!(ev.approver_did.is_none());
}

#[test]
fn anchor_evidence_is_bound_to_the_principal() {
    let anchor = TrustAnchor::generate().unwrap();
    let ev = ApprovalEvidence::approve(&action_alice(), "ap", "ap-2", future_unix(), &anchor)
        .unwrap();
    let bob = Action::new("tool:wire_funds", "amount=5000").on_behalf_of("did:web:bob.example");
    assert!(ev.verify(&bob, &anchor, now_unix()).is_err());
}

#[test]
fn anchor_evidence_rejects_expired() {
    let anchor = TrustAnchor::generate().unwrap();
    let past = now_unix() - 60;
    let action = action_alice();
    let ev = ApprovalEvidence::approve(&action, "ap", "ap-3", past, &anchor).unwrap();
    assert!(ev.verify(&action, &anchor, now_unix()).is_err());
}

#[test]
fn anchor_evidence_rejects_wrong_anchor_and_tamper() {
    let anchor = TrustAnchor::generate().unwrap();
    let other = TrustAnchor::generate().unwrap();
    let action = action_alice();
    let ev = ApprovalEvidence::approve(&action, "ap", "ap-4", future_unix(), &anchor).unwrap();
    assert!(ev.verify(&action, &other, now_unix()).is_err());
    let mut forged = ev.clone();
    forged.approver = "attacker".into();
    assert!(forged.verify(&action, &anchor, now_unix()).is_err());
    let mut forged2 = ev.clone();
    forged2.approval_id = "ap-999".into();
    assert!(forged2.verify(&action, &anchor, now_unix()).is_err());
}

fn directory_with(
    approver: &AgentIdentity,
    roles: Vec<String>,
    dir_not_after: Option<Timestamp>,
    anchor: &TrustAnchor,
) -> ApproverDirectory {
    let entry = ApproverEntry {
        approver_id: "alice-approver".into(),
        approver_did: approver.did().to_string(),
        roles,
        not_after: None,
    };
    ApproverDirectory::seal(vec![entry], 1, at(now_unix()), dir_not_after, anchor).unwrap()
}

#[test]
fn approver_key_evidence_verifies_with_directory_and_role() {
    let anchor = TrustAnchor::generate().unwrap();
    let approver = AgentIdentity::create(DidMethod::Key, None).unwrap();
    let dir = directory_with(&approver, vec!["finance".into()], None, &anchor);
    let action = action_alice();
    let ev = ApprovalEvidence::approve_by_key(
        &action,
        "alice-approver",
        &approver,
        "kp-1",
        future_unix(),
    )
    .unwrap();
    assert_eq!(ev.kind, Gate::APPROVAL_KEY);
    assert!(ev
        .verify_with_directory(&action, &dir, &anchor, now_unix(), Some("finance"))
        .is_ok());
}

#[test]
fn approver_key_evidence_rejects_missing_role() {
    let anchor = TrustAnchor::generate().unwrap();
    let approver = AgentIdentity::create(DidMethod::Key, None).unwrap();
    let dir = directory_with(&approver, vec!["ops".into()], None, &anchor);
    let action = action_alice();
    let ev = ApprovalEvidence::approve_by_key(
        &action,
        "alice-approver",
        &approver,
        "kp-2",
        future_unix(),
    )
    .unwrap();
    assert!(ev
        .verify_with_directory(&action, &dir, &anchor, now_unix(), Some("finance"))
        .is_err());
}

#[test]
fn approver_key_evidence_rejects_unenrolled_approver() {
    let anchor = TrustAnchor::generate().unwrap();
    let enrolled = AgentIdentity::create(DidMethod::Key, None).unwrap();
    let stranger = AgentIdentity::create(DidMethod::Key, None).unwrap();
    let dir = directory_with(&enrolled, vec![], None, &anchor);
    let action = action_alice();
    let ev =
        ApprovalEvidence::approve_by_key(&action, "stranger", &stranger, "kp-3", future_unix())
            .unwrap();
    assert!(ev
        .verify_with_directory(&action, &dir, &anchor, now_unix(), None)
        .is_err());
}

#[test]
fn approver_key_evidence_rejects_expired_entry() {
    let anchor = TrustAnchor::generate().unwrap();
    let approver = AgentIdentity::create(DidMethod::Key, None).unwrap();
    let past = at(now_unix() - 60);
    let entry = ApproverEntry {
        approver_id: "a".into(),
        approver_did: approver.did().to_string(),
        roles: vec![],
        not_after: Some(past),
    };
    let dir = ApproverDirectory::seal(
        vec![entry],
        1,
        at(now_unix()),
        Some(at(now_unix() + 3600)),
        &anchor,
    )
    .unwrap();
    let action = action_alice();
    let ev = ApprovalEvidence::approve_by_key(&action, "a", &approver, "kp-4", future_unix())
        .unwrap();
    assert!(ev
        .verify_with_directory(&action, &dir, &anchor, now_unix(), None)
        .is_err());
}

#[test]
fn approver_key_evidence_rejects_wrong_directory_anchor() {
    let anchor = TrustAnchor::generate().unwrap();
    let other = TrustAnchor::generate().unwrap();
    let approver = AgentIdentity::create(DidMethod::Key, None).unwrap();
    let dir = directory_with(&approver, vec![], None, &anchor);
    let action = action_alice();
    let ev = ApprovalEvidence::approve_by_key(&action, "a", &approver, "kp-5", future_unix())
        .unwrap();
    assert!(ev
        .verify_with_directory(&action, &dir, &other, now_unix(), None)
        .is_err());
}

#[test]
fn approver_key_evidence_rejects_tampered_binding() {
    let anchor = TrustAnchor::generate().unwrap();
    let approver = AgentIdentity::create(DidMethod::Key, None).unwrap();
    let dir = directory_with(&approver, vec![], None, &anchor);
    let action = action_alice();
    let mut ev =
        ApprovalEvidence::approve_by_key(&action, "a", &approver, "kp-6", future_unix())
            .unwrap();
    ev.binding = Action::new("tool:wire_funds", "amount=1")
        .on_behalf_of("did:web:alice.example")
        .approval_binding();
    assert!(ev
        .verify_with_directory(&action, &dir, &anchor, now_unix(), None)
        .is_err());
}

#[test]
fn cross_mode_evidence_is_rejected() {
    let anchor = TrustAnchor::generate().unwrap();
    let approver = AgentIdentity::create(DidMethod::Key, None).unwrap();
    let dir = directory_with(&approver, vec![], None, &anchor);
    let action = action_alice();
    let anchor_ev =
        ApprovalEvidence::approve(&action, "a", "x-1", future_unix(), &anchor).unwrap();
    assert!(anchor_ev
        .verify_with_directory(&action, &dir, &anchor, now_unix(), None)
        .is_err());
    let key_ev =
        ApprovalEvidence::approve_by_key(&action, "a", &approver, "x-2", future_unix())
            .unwrap();
    assert!(key_ev.verify(&action, &anchor, now_unix()).is_err());
}

#[test]
fn directory_verifies_and_looks_up_live_entry() {
    let anchor = TrustAnchor::generate().unwrap();
    let approver = AgentIdentity::create(DidMethod::Key, None).unwrap();
    let dir = directory_with(&approver, vec!["finance".into()], None, &anchor);
    let now = at(now_unix());
    assert!(dir.verify_current(&anchor, now).is_ok());
    assert!(dir.lookup(approver.did(), now).is_some());
    assert!(dir.lookup("did:key:zNotHere", now).is_none());
}

#[test]
fn directory_rejects_wrong_anchor_expiry_and_tamper() {
    let anchor = TrustAnchor::generate().unwrap();
    let other = TrustAnchor::generate().unwrap();
    let approver = AgentIdentity::create(DidMethod::Key, None).unwrap();
    let dir = directory_with(
        &approver,
        vec![],
        Some(at(now_unix() + 3600)),
        &anchor,
    );
    let now = at(now_unix());
    assert!(dir.verify_current(&other, now).is_err());
    assert!(dir
        .verify_current(&anchor, at(now_unix() + 7200))
        .is_err());
    let mut forged = dir.clone();
    forged.entries[0].roles.push("admin".into());
    assert!(forged.verify_current(&anchor, now).is_err());
}

#[test]
fn consumed_approvals_enforce_one_time() {
    let mut seen = ConsumedApprovals::new();
    assert!(!seen.contains("ap-1"));
    assert!(seen.try_consume("ap-1"));
    assert!(!seen.try_consume("ap-1"));
    assert!(seen.contains("ap-1"));
    assert!(seen.try_consume("ap-2"));
}

#[test]
fn gate_constructors_set_kind_and_tool() {
    let g = Gate::approval("tool:wire_funds");
    assert_eq!(g.kind, Gate::APPROVAL);
    assert_eq!(g.tool, "tool:wire_funds");
    let k = Gate::approval_key("tool:wire_funds");
    assert_eq!(k.kind, Gate::APPROVAL_KEY);
}

#[test]
fn sealed_entries_are_sorted_and_ties_keep_their_order() {
    let anchor = TrustAnchor::generate().unwrap();
    let entry = |id: &str, did: &str| ApproverEntry {
        approver_id: id.into(),
        approver_did: did.into(),
        roles: vec![],
        not_after: None,
    };
    let dir = ApproverDirectory::seal(
        vec![entry("b", "1"), entry("a", "2"), entry("b", "3"), entry("a", "4")],
        7,
        at(1000),
        None,
        &anchor,
    )
    .unwrap();
    let order: Vec<&str> = dir.entries.iter().map(|e| e.approver_did.as_str()).collect();
    assert_eq!(order, ["2", "4", "1", "3"]);
    assert!(dir.verify_current(&anchor, at(1000)).is_ok());
}

#[test]
fn each_way_evidence_fails_is_named() {
    let anchor = TrustAnchor::generate().unwrap();
    let action = action_alice();
    let ev = ApprovalEvidence::approve(&action, "a", "id", 1000, &anchor).unwrap();
    assert!(ev.verify(&action, &anchor, 999).is_ok());
    let why = |e: &ApprovalEvidence, act: &Action, now: i64| {
        e.verify(act, &anchor, now).unwrap_err().to_string()
    };
    let says = |what: &str| format!("VC proof verification failed: {what}");
    let bob = Action::new("tool:wire_funds", "amount=5000").on_behalf_of("did:web:bob.example");
    assert_eq!(
        why(&ev, &bob, 999),
        says("approval evidence is not bound to this action/principal")
    );
    assert_eq!(why(&ev, &action, 1000), says("approval evidence has expired"));
    let mut bad = ev.clone();
    bad.signature = "zz".into();
    assert_eq!(
        why(&bad, &action, 999),
        says("approval evidence signature is not valid hex")
    );
    let mut bad = ev.clone();
    bad.approver = "b".into();
    assert_eq!(
        why(&bad, &action, 999),
        says("approval evidence signature does not verify")
    );
}

#[test]
fn an_approver_without_a_key_in_its_did_fails_as_a_proof() {
    let anchor = TrustAnchor::generate().unwrap();
    let entry = ApproverEntry {
        approver_id: "alice-approver".into(),
        approver_did: "did:web:acme.example".into(),
        roles: Vec::new(),
        not_after: None,
    };
    let dir = ApproverDirectory::seal(vec![entry], 1, at(now_unix()), None, &anchor).unwrap();
    let action = action_alice();
    let approver = AgentIdentity::create(DidMethod::Key, None).unwrap();
    let mut ev = ApprovalEvidence::approve_by_key(
        &action,
        "alice-approver",
        &approver,
        "kp-1",
        future_unix(),
    )
    .unwrap();
    ev.approver_did = Some("did:web:acme.example".into());
    assert!(matches!(
        ev.verify_with_directory(&action, &dir, &anchor, now_unix(), None),
        Err(AgentCredsError::InvalidVcProof { .. })
    ));
}
