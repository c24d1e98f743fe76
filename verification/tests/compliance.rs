use agentcreds_core::adr::{AdrStream, AuthzDecision, Decision, DecisionKind, Signal};
use agentcreds_core::audit::{AuditCompositor, AuditLog};
use agentcreds_core::compliance::EvidenceBundle;
use agentcreds_core::delegation::{Action, DelegationToken, Scope};
use agentcreds_core::did::{AgentIdentity, DidMethod, TrustAnchor};
use agentcreds_core::time::Timestamp;
use agentcreds_core::vc::{CapabilityClaims, CapabilityCredential};

struct World {
    anchor: TrustAnchor,
    vc: CapabilityCredential,
    token: DelegationToken,
}

fn world() -> World {
    let anchor = TrustAnchor::generate().unwrap();
    let agent = AgentIdentity::create(DidMethod::Key, None).unwrap();
    let vc = CapabilityCredential::issue(
        &anchor,
        agent.did(),
        CapabilityClaims::new(vec!["tool:search".into()], 2, 3600),
        None,
    )
    .unwrap();
    let scope = Scope::with_budget_and_depth(vec!["tool:search".into()], None, 1);
    let token = DelegationToken::mint(&vc, scope, 300, &agent).unwrap();
    World { anchor, vc, token }
}

/// Record two allow decisions plus one denied call, returning the stream and the stamped
/// records.
fn recorded(w: &World) -> (AdrStream, Vec<AuthzDecision>) {
    let mut stream = AdrStream::new();
    let mut records = Vec::new();
    for _ in 0..2 {
        let ok = w
            .token
            .verify_rooted(&Action::new("tool:search", "q=ok"), &w.vc, &w.anchor);
        records.push(stream.record(AuthzDecision::from_token(
            DecisionKind::VerifyRooted,
            &w.token,
            Some("tool:search"),
            &ok,
        )));
    }
    let denied = w.token.verify(&Action::new("tool:admin", ""));
    records.push(stream.record(AuthzDecision::from_token(
        DecisionKind::Verify,
        &w.token,
        Some("tool:admin"),
        &denied,
    )));
    (stream, records)
}

#[test]
fn seals_and_verifies_with_report() {
    let w = world();
    let (stream, records) = recorded(&w);
    let bundle = EvidenceBundle::builder(w.token.vc_id())
        .subject(w.token.root_agent_did())
        .decisions(records)
        .stream_checkpoint(stream.sign_checkpoint(&w.anchor).unwrap())
        .seal(&w.anchor)
        .unwrap();

    let report = bundle.verify(&w.anchor).unwrap();
    assert_eq!(report.decisions, 3);
    assert_eq!(report.allowed, 2);
    assert_eq!(report.denied, 1);
    assert_eq!(report.signals, vec![Signal::ActionDenied]);
    assert!(report.checkpoint_verified);
    assert_eq!(report.correlation_id, w.token.vc_id());
}

#[test]
fn wrong_anchor_is_rejected() {
    let w = world();
    let (_stream, records) = recorded(&w);
    let bundle = EvidenceBundle::builder(w.token.vc_id())
        .decisions(records)
        .seal(&w.anchor)
        .unwrap();
    let stranger = TrustAnchor::generate().unwrap();
    assert!(bundle.verify(&stranger).is_err());
}

#[test]
fn tampering_with_a_decision_is_detected() {
    let w = world();
    let (_stream, records) = recorded(&w);
    let mut bundle = EvidenceBundle::builder(w.token.vc_id())
        .decisions(records)
        .seal(&w.anchor)
        .unwrap();
    // Flip an allow into a (claimed) deny after sealing.
    bundle.decisions[0].decision = Decision::Deny;
    assert!(bundle.verify(&w.anchor).is_err());
}

#[test]
fn dropping_a_record_breaks_the_head() {
    let w = world();
    let (_stream, records) = recorded(&w);
    let mut bundle = EvidenceBundle::builder(w.token.vc_id())
        .decisions(records)
        .seal(&w.anchor)
        .unwrap();
    bundle.decisions.pop(); // remove the last record, keep the sealed head
    let err = bundle.verify(&w.anchor);
    assert!(err.is_err());
}

#[test]
fn decisions_matching_filters_by_correlation() {
    let w = world();
    let (_stream, mut records) = recorded(&w);
    // Add a decision for a different flow.
    let other = AuthzDecision::allow(DecisionKind::Verify, "did:key:zOther");
    records.push(other);
    let bundle = EvidenceBundle::builder(w.token.vc_id())
        .decisions_matching(&records)
        .seal(&w.anchor)
        .unwrap();
    let report = bundle.verify(&w.anchor).unwrap();
    assert_eq!(report.decisions, 3); // the foreign record was excluded
}

#[test]
fn custody_from_compositor_is_included() {
    let w = world();
    let (_stream, records) = recorded(&w);
    let corr = w.token.vc_id();
    let mut log = AuditLog::new(corr, w.anchor.did());
    log.record("did:key:zAgent", "tool:search", "allow");
    let mut comp = AuditCompositor::new(corr);
    comp.ingest(&log.export(&w.anchor).unwrap(), &w.anchor)
        .unwrap();

    let bundle = EvidenceBundle::builder(corr)
        .decisions(records)
        .custody_from(&comp)
        .seal(&w.anchor)
        .unwrap();
    let report = bundle.verify(&w.anchor).unwrap();
    assert_eq!(report.custody_entries, 1);
    assert_eq!(
        bundle.custody_root.as_deref(),
        Some(comp.root_hash().as_str())
    );
}

#[test]
fn records_are_sorted_by_sequence_number_and_ties_keep_their_order() {
    let anchor = TrustAnchor::generate().unwrap();
    let d = |seq: u64, who: &str| {
        let mut x = AuthzDecision::allow(DecisionKind::Mint, who);
        x.seq = seq;
        x
    };
    let bundle = EvidenceBundle::builder("flow")
        .decisions(vec![d(3, "a"), d(1, "b"), d(3, "c"), d(0, "d"), d(1, "e")])
        .seal(&anchor)
        .unwrap();
    let order: Vec<&str> = bundle
        .decisions
        .iter()
        .map(|x| x.subject_did.as_str())
        .collect();
    assert_eq!(order, ["d", "b", "e", "a", "c"]);
    assert!(bundle.verify(&anchor).is_ok());
    assert!(bundle.bundle_id.starts_with("urn:evidence:") && bundle.bundle_id.len() == 45);
}

#[test]
fn the_report_names_each_signal_once_in_order() {
    let anchor = TrustAnchor::generate().unwrap();
    let deny = |s: Signal| AuthzDecision::deny(DecisionKind::Verify, "x", s, "no");
    let bundle = EvidenceBundle::builder("flow")
        .decisions(vec![
            deny(Signal::Revoked),
            deny(Signal::Expired),
            deny(Signal::Revoked),
        ])
        .seal(&anchor)
        .unwrap();
    let report = bundle.verify(&anchor).unwrap();
    assert_eq!(report.signals, vec![Signal::Revoked, Signal::Expired]);
    assert_eq!((report.allowed, report.denied), (0, 3));
    assert!(!report.checkpoint_verified);
}

#[test]
fn every_part_of_a_bundle_is_signed() {
    let w = world();
    let (stream, records) = recorded(&w);
    let at = |s: i64| Timestamp::from_unix(s, 0).unwrap();
    let good = EvidenceBundle::builder(w.token.vc_id())
        .subject("did:key:zS")
        .window(at(100), at(200))
        .decisions(records)
        .stream_checkpoint(stream.sign_checkpoint(&w.anchor).unwrap())
        .seal(&w.anchor)
        .unwrap();
    assert!(good.verify(&w.anchor).is_ok());
    let refused = |b: &EvidenceBundle, why: &str| {
        assert_eq!(
            b.verify(&w.anchor).unwrap_err().to_string(),
            format!("VC proof verification failed: {why}")
        );
    };
    let unsigned = "evidence bundle signature does not verify";
    let mut b = good.clone();
    b.issuer_did = "did:key:zOther".into();
    refused(&b, "evidence bundle issuer does not match the anchor");
    let mut b = good.clone();
    b.bundle_id = "urn:evidence:0".into();
    refused(&b, unsigned);
    let mut b = good.clone();
    b.subject_did = None;
    refused(&b, unsigned);
    let mut b = good.clone();
    b.window_end = Some(at(201));
    refused(&b, unsigned);
    let mut b = good.clone();
    b.decisions_head = "00".into();
    refused(&b, unsigned);
    let mut b = good.clone();
    b.stream_checkpoint = None;
    refused(&b, unsigned);
    let mut b = good.clone();
    b.custody_root = Some("00".into());
    refused(&b, unsigned);
    // The sequence number is outside the record digest, but not outside the head.
    let mut b = good.clone();
    b.decisions[0].seq = 40;
    refused(&b, "decision records do not match the sealed head");
    // A bundle sealed over a checkpoint of another anchor does not verify.
    let stranger = TrustAnchor::generate().unwrap();
    let b = EvidenceBundle::builder("flow")
        .stream_checkpoint(AdrStream::new().sign_checkpoint(&stranger).unwrap())
        .seal(&w.anchor)
        .unwrap();
    refused(&b, "checkpoint issuer does not match the anchor");
}

#[test]
fn only_the_signals_of_denies_are_reported() {
    let w = world();
    let mut stream = AdrStream::new();
    let mut allowed = AuthzDecision::allow(DecisionKind::Verify, "did:key:zX");
    allowed.signals = vec![Signal::Revoked];
    let records = vec![
        stream.record(allowed),
        stream.record(AuthzDecision::deny(
            DecisionKind::Verify,
            "did:key:zX",
            Signal::Expired,
            "late",
        )),
    ];
    let bundle = EvidenceBundle::builder("urn:vc:1")
        .decisions(records)
        .seal(&w.anchor)
        .unwrap();
    let report = bundle.verify(&w.anchor).unwrap();
    assert_eq!(report.signals, vec![Signal::Expired]);
    assert_eq!((report.allowed, report.denied), (1, 1));
}

#[test]
fn a_record_altered_within_its_second_is_detected() {
    let w = world();
    let (_stream, records) = recorded(&w);
    let bundle = EvidenceBundle::builder(w.token.vc_id())
        .decisions(records)
        .seal(&w.anchor)
        .unwrap();
    let mut altered = bundle.clone();
    let t = altered.decisions[0].timestamp;
    let nanos = if t.subsec_nanos() == 0 { 1 } else { 0 };
    altered.decisions[0].timestamp = Timestamp::from_unix(t.timestamp(), nanos).unwrap();
    assert!(altered.verify(&w.anchor).is_err());
    let mut blanked = bundle.clone();
    blanked.decisions[0].reason = Some(String::new());
    assert!(blanked.verify(&w.anchor).is_err());
    let mut renumbered = bundle.clone();
    renumbered.decisions[0].seq = 7;
    assert!(renumbered.verify(&w.anchor).is_err());
    assert!(bundle.verify(&w.anchor).is_ok());
}

#[test]
fn a_bundle_altered_within_a_second_or_by_an_empty_text_is_detected() {
    let w = world();
    let corr = w.token.vc_id();
    let mut log = AuditLog::new(corr, w.anchor.did());
    log.record("did:key:zAgent", "tool:search", "allow");
    let mut comp = AuditCompositor::new(corr);
    comp.ingest(&log.export(&w.anchor).unwrap(), &w.anchor)
        .unwrap();
    let at = |s: i64| Timestamp::from_unix(s, 0).unwrap();
    let nudged = |t: Timestamp| {
        let nanos = if t.subsec_nanos() == 0 { 1 } else { 0 };
        Timestamp::from_unix(t.timestamp(), nanos).unwrap()
    };
    let good = EvidenceBundle::builder(corr)
        .window(at(100), at(200))
        .custody_from(&comp)
        .seal(&w.anchor)
        .unwrap();
    assert!(good.verify(&w.anchor).is_ok());
    let mut b = good.clone();
    b.generated_at = nudged(b.generated_at);
    assert!(b.verify(&w.anchor).is_err());
    let mut b = good.clone();
    b.window_start = Some(nudged(at(100)));
    assert!(b.verify(&w.anchor).is_err());
    let mut b = good.clone();
    b.window_end = Some(nudged(at(200)));
    assert!(b.verify(&w.anchor).is_err());
    let mut b = good.clone();
    b.custody[0].timestamp = nudged(b.custody[0].timestamp);
    assert!(b.verify(&w.anchor).is_err());
    // What is absent is neither empty nor the first second of 1970.
    let bare = EvidenceBundle::builder(corr).seal(&w.anchor).unwrap();
    assert!(bare.verify(&w.anchor).is_ok());
    let mut b = bare.clone();
    b.subject_did = Some(String::new());
    assert!(b.verify(&w.anchor).is_err());
    let mut b = bare.clone();
    b.custody_root = Some(String::new());
    assert!(b.verify(&w.anchor).is_err());
    let mut b = bare.clone();
    b.window_start = Some(at(0));
    assert!(b.verify(&w.anchor).is_err());
    let mut b = bare.clone();
    b.window_end = Some(at(0));
    assert!(b.verify(&w.anchor).is_err());
}
