use std::sync::atomic::{AtomicUsize, Ordering};
use std::sync::{Arc, Mutex};

use agentcreds_core::adr::{
    replay, AdrSink, AdrStream, AuthzDecision, Decision, DecisionKind, InMemorySink, Signal,
};
use agentcreds_core::delegation::{Action, DelegationToken, Scope};
use agentcreds_core::did::{AgentIdentity, DidMethod, TrustAnchor};
use agentcreds_core::error::AgentCredsError;
use agentcreds_core::time::Timestamp;
use agentcreds_core::vc::{CapabilityClaims, CapabilityCredential};
use sha2::Digest;

/// A shared buffer that a stream can own a handle of.
#[derive(Clone)]
struct Shared(Arc<Mutex<InMemorySink>>);

impl Shared {
    fn new() -> Self {
        Shared(Arc::new(Mutex::new(InMemorySink::new())))
    }

    fn snapshot(&self) -> Vec<AuthzDecision> {
        self.0.lock().unwrap().snapshot()
    }
}

impl AdrSink for Shared {
    fn emit(&self, decision: &AuthzDecision) {
        self.0.lock().unwrap().emit(decision);
    }
}

struct Counter(Arc<AtomicUsize>);

impl AdrSink for Counter {
    fn emit(&self, _decision: &AuthzDecision) {
        self.0.fetch_add(1, Ordering::SeqCst);
    }
}

fn token() -> (
    TrustAnchor,
    AgentIdentity,
    CapabilityCredential,
    DelegationToken,
) {
    let anchor = TrustAnchor::generate().unwrap();
    let agent = AgentIdentity::create(DidMethod::Key, None).unwrap();
    let vc = CapabilityCredential::issue(
        &anchor,
        agent.did(),
        CapabilityClaims::new(vec!["tool:search".into(), "tool:email".into()], 2, 3600),
        None,
    )
    .unwrap();
    let scope = Scope::with_budget_and_depth(vec!["tool:search".into()], None, 1);
    let token = DelegationToken::mint(&vc, scope, 300, &agent).unwrap();
    (anchor, agent, vc, token)
}

#[test]
fn resume_matches_full_replay() {
    let (anchor, _a, vc, token) = token();
    let action = Action::new("tool:search", "q=ok");
    let mk = || {
        let result = token.verify_rooted(&action, &vc, &anchor);
        AuthzDecision::from_token(
            DecisionKind::VerifyRooted,
            &token,
            Some(&action.tool),
            &result,
        )
    };
    // Build the decisions once and fold the *same* objects on both paths.
    let ds: Vec<AuthzDecision> = (0..4).map(|_| mk()).collect();

    // Full stream from genesis.
    let mut full = AdrStream::new();
    for d in &ds {
        full.record(d.clone());
    }
    let full_head = full.head();

    // Record the first two, persist (count, head), then *resume* and record the
    // rest - the head and count must match the full-replay stream exactly.
    let mut a = AdrStream::new();
    a.record(ds[0].clone());
    a.record(ds[1].clone());
    let mut resumed = AdrStream::resume(a.count(), &a.head()).unwrap();
    resumed.record(ds[2].clone());
    resumed.record(ds[3].clone());
    assert_eq!(resumed.head(), full_head);
    assert_eq!(resumed.count(), 4);

    // resume() round-trips a head and rejects malformed ones.
    assert_eq!(AdrStream::resume(2, &a.head()).unwrap().head(), a.head());
    assert!(AdrStream::resume(0, "not-hex").is_err());
    assert!(AdrStream::resume(0, "abcd").is_err());
}

#[test]
fn a_malformed_head_is_named() {
    assert_eq!(
        AdrStream::resume(0, "abcd").err().unwrap().to_string(),
        "malformed credential claims: ADR chain head must be 32 bytes, got 2"
    );
    assert!(AdrStream::resume(0, "not-hex")
        .err()
        .unwrap()
        .to_string()
        .starts_with("malformed credential claims: ADR chain head is not valid hex: "));
}

#[test]
fn allow_decision_from_successful_verify() {
    let (anchor, _agent, vc, token) = token();
    let action = Action::new("tool:search", "q=ok");
    let result = token.verify_rooted(&action, &vc, &anchor);
    let adr = AuthzDecision::from_token(
        DecisionKind::VerifyRooted,
        &token,
        Some(&action.tool),
        &result,
    );
    assert_eq!(adr.decision, Decision::Allow);
    assert!(adr.signals.is_empty());
    assert_eq!(adr.vc_id, token.vc_id());
    assert_eq!(adr.subject_did, token.leaf_agent_did());
}

#[test]
fn denied_action_surfaces_action_denied_signal() {
    let (_anchor, _agent, _vc, token) = token();
    let action = Action::new("tool:email", "to=evil"); // narrowed away
    let result = token.verify(&action);
    let adr = AuthzDecision::from_token(DecisionKind::Verify, &token, Some(&action.tool), &result);
    assert_eq!(adr.decision, Decision::Deny);
    assert_eq!(adr.signals, vec![Signal::ActionDenied]);
    assert!(adr.reason.is_some());
}

#[test]
fn scope_widening_attempt_is_signalled() {
    let (_anchor, agent, vc, token) = token();
    let sub = AgentIdentity::create(DidMethod::Key, None).unwrap();
    let _ = agent;
    let wider =
        Scope::with_budget_and_depth(vec!["tool:search".into(), "tool:email".into()], None, 1);
    let result = token.attenuate(wider, 60, &sub).map(|_| ());
    let adr = AuthzDecision::from_token(DecisionKind::Attenuate, &token, None, &result);
    assert_eq!(adr.decision, Decision::Deny);
    assert_eq!(adr.signals, vec![Signal::ScopeWideningAttempt]);
    let _ = vc;
}

#[test]
fn unrooted_token_signals_via_verify_rooted() {
    // An attacker's self-rooted token verifies chain-only but fails rooted.
    let attacker_anchor = TrustAnchor::generate().unwrap();
    let attacker = AgentIdentity::create(DidMethod::Key, None).unwrap();
    let attacker_vc = CapabilityCredential::issue(
        &attacker_anchor,
        attacker.did(),
        CapabilityClaims::new(vec!["tool:admin".into()], 2, 3600),
        None,
    )
    .unwrap();
    let scope = Scope::with_budget_and_depth(vec!["tool:admin".into()], None, 1);
    let attacker_token = DelegationToken::mint(&attacker_vc, scope, 300, &attacker).unwrap();

    // Relying party checks against ITS anchor/VC.
    let (anchor, _a, vc, _t) = token();
    let action = Action::new("tool:admin", "");
    let result = attacker_token.verify_rooted(&action, &vc, &anchor);
    let adr = AuthzDecision::from_token(
        DecisionKind::VerifyRooted,
        &attacker_token,
        Some(&action.tool),
        &result,
    );
    assert_eq!(adr.decision, Decision::Deny);
    assert!(!adr.signals.is_empty());
}

#[test]
fn stream_fans_out_and_chains() {
    let (_anchor, _agent, vc, token) = token();
    let action = Action::new("tool:search", "q=ok");
    let sink = Shared::new();
    let mut stream = AdrStream::new();
    stream.subscribe(Box::new(sink.clone()));

    for _ in 0..3 {
        let r = token.verify(&action);
        stream.record(AuthzDecision::from_token(
            DecisionKind::Verify,
            &token,
            Some(&action.tool),
            &r,
        ));
    }
    let _ = vc;

    let captured = sink.snapshot();
    assert_eq!(captured.len(), 3);
    assert_eq!(captured[0].seq, 0);
    assert_eq!(captured[2].seq, 2);
    assert_eq!(stream.count(), 3);
    // A consumer replaying the delivered records reaches the same head.
    assert_eq!(replay(&captured), stream.head());
}

#[test]
fn closure_sink_is_accepted() {
    let counter = Arc::new(AtomicUsize::new(0));
    let c2 = counter.clone();
    let mut stream = AdrStream::new();
    stream.subscribe(Box::new(Counter(c2)));
    stream.record(AuthzDecision::allow(DecisionKind::Revocation, "did:key:zX"));
    assert_eq!(counter.load(Ordering::SeqCst), 1);
}

#[test]
fn the_digest_covers_fractions_of_a_second_and_absence() {
    let mut base = AuthzDecision::allow(DecisionKind::Verify, "did:key:zX");
    base.timestamp = Timestamp::from_unix(1_700_000_000, 5).unwrap();
    let mut later = base.clone();
    later.timestamp = Timestamp::from_unix(1_700_000_000, 6).unwrap();
    assert_ne!(base.digest(), later.digest());
    let mut blank = base.clone();
    blank.action = Some(String::new());
    assert_ne!(base.digest(), blank.digest());
    let mut blank = base.clone();
    blank.reason = Some(String::new());
    assert_ne!(base.digest(), blank.digest());
}

#[test]
fn a_sink_that_subscribes_late_gets_the_earlier_records() {
    let mut stream = AdrStream::new();
    stream.record(AuthzDecision::allow(DecisionKind::Mint, "did:key:zA"));
    let sink = Shared::new();
    stream.subscribe(Box::new(sink.clone()));
    stream.record(AuthzDecision::allow(DecisionKind::Mint, "did:key:zB"));
    let got: Vec<String> = sink.snapshot().iter().map(|d| d.subject_did.clone()).collect();
    assert_eq!(got, vec!["did:key:zA", "did:key:zB"]);
    assert_eq!(replay(&sink.snapshot()), stream.head());
}

#[test]
fn a_shared_handle_is_a_sink() {
    let shared = Arc::new(Shared::new());
    let mut stream = AdrStream::new();
    stream.subscribe(Box::new(shared.clone()));
    stream.record(AuthzDecision::allow(DecisionKind::Mint, "did:key:zA"));
    assert_eq!(shared.snapshot().len(), 1);
    assert_eq!(shared.snapshot()[0].subject_did, "did:key:zA");
}

#[test]
fn every_subscribed_sink_gets_every_record() {
    let (a, b) = (Shared::new(), Shared::new());
    let mut stream = AdrStream::new();
    stream
        .subscribe(Box::new(a.clone()))
        .subscribe(Box::new(b.clone()));
    stream.record(AuthzDecision::allow(DecisionKind::Mint, "did:key:zA"));
    stream.record(AuthzDecision::allow(DecisionKind::Mint, "did:key:zB"));
    for sink in [a, b] {
        let got = sink.snapshot();
        assert_eq!(got.len(), 2);
        assert_eq!(got[0].subject_did, "did:key:zA");
        assert_eq!(got[1].subject_did, "did:key:zB");
    }
}

#[test]
fn signed_checkpoint_verifies_and_detects_tampering() {
    let (anchor, _agent, _vc, token) = token();
    let action = Action::new("tool:search", "q=ok");
    let mut stream = AdrStream::new();
    let mut delivered = Vec::new();
    for _ in 0..2 {
        let r = token.verify(&action);
        delivered.push(stream.record(AuthzDecision::from_token(
            DecisionKind::Verify,
            &token,
            Some(&action.tool),
            &r,
        )));
    }
    let checkpoint = stream.sign_checkpoint(&anchor).unwrap();
    assert!(checkpoint.verify(&anchor).is_ok());
    // The signed head matches an honest replay.
    assert_eq!(checkpoint.head, replay(&delivered));

    // Drop a record -> replay no longer matches the signed head.
    assert_ne!(replay(&delivered[..1]), checkpoint.head);

    // A different anchor cannot validate the checkpoint.
    let stranger = TrustAnchor::generate().unwrap();
    assert!(checkpoint.verify(&stranger).is_err());
}

#[test]
fn each_way_a_checkpoint_fails_is_named() {
    let anchor = TrustAnchor::generate().unwrap();
    let good = AdrStream::new().sign_checkpoint(&anchor).unwrap();
    assert!(good.verify(&anchor).is_ok());

    let mut c = good.clone();
    c.issuer_did = "did:key:zOther".into();
    assert_eq!(
        c.verify(&anchor).unwrap_err().to_string(),
        "VC proof verification failed: checkpoint issuer does not match the anchor"
    );
    let mut c = good.clone();
    c.signature = "!".into();
    assert!(c
        .verify(&anchor)
        .unwrap_err()
        .to_string()
        .starts_with("VC proof verification failed: signature base64: "));
    let mut c = good.clone();
    c.count = 7;
    assert_eq!(
        c.verify(&anchor).unwrap_err().to_string(),
        "VC proof verification failed: checkpoint signature does not verify"
    );
    // A verify-only anchor cannot sign one.
    let public = TrustAnchor::from_did_key(anchor.did()).unwrap();
    assert!(good.verify(&public).is_ok());
    assert!(AdrStream::new().sign_checkpoint(&public).is_err());
}

#[test]
fn the_chain_is_the_hash_of_the_previous_head_number_and_digest() {
    let mut stream = AdrStream::new();
    let genesis = sha2::Sha256::digest(b"agentcreds-adr-chain-v1");
    assert_eq!(stream.head(), hex::encode(genesis));
    let d = stream.record(AuthzDecision::allow(DecisionKind::Mint, "did:key:zA"));
    let mut h = sha2::Sha256::new();
    h.update(b"agentcreds-adr-chain-v1");
    h.update(genesis);
    h.update(0u64.to_le_bytes());
    h.update(d.digest());
    assert_eq!(stream.head(), hex::encode(h.finalize()));
}

#[test]
fn reordered_or_changed_records_give_another_head() {
    let mut stream = AdrStream::new();
    let a = stream.record(AuthzDecision::allow(DecisionKind::Mint, "did:key:zA"));
    let b = stream.record(AuthzDecision::allow(DecisionKind::Mint, "did:key:zB"));
    assert_eq!(replay(&[a.clone(), b.clone()]), stream.head());
    assert_ne!(replay(&[b.clone(), a.clone()]), stream.head());
    let mut renumbered = b.clone();
    renumbered.seq = 5;
    assert_ne!(replay(&[a.clone(), renumbered]), stream.head());
    assert_ne!(
        replay(&[a, b.with_action("tool:other")]),
        stream.head()
    );
}

#[test]
fn in_memory_sink_is_bounded() {
    let mut sink = InMemorySink::with_capacity(2);
    for i in 0..5 {
        sink.emit(&AuthzDecision::allow(
            DecisionKind::Verify,
            &format!("did:key:z{i}"),
        ));
    }
    assert_eq!(sink.len(), 2);
    // Oldest dropped; the last two remain.
    let snap = sink.snapshot();
    assert!(snap[0].subject_did.ends_with('3'));
    assert!(snap[1].subject_did.ends_with('4'));

    // A capacity of none holds one.
    let mut one = InMemorySink::with_capacity(0);
    one.emit(&snap[0]);
    one.emit(&snap[1]);
    assert_eq!(one.len(), 1);
    assert!(one.snapshot()[0].subject_did.ends_with('4'));
}

#[test]
fn digest_covers_the_accountability_fields() {
    let base = AuthzDecision::allow(DecisionKind::Verify, "did:key:zX");

    let mut party = base.clone();
    party.accountable_party = Some("team:payments".into());
    assert_ne!(
        base.digest(),
        party.digest(),
        "accountable party is unprotected"
    );

    // Swapping one party for another must not collide.
    let mut other = base.clone();
    other.accountable_party = Some("team:reporting".into());
    assert_ne!(
        party.digest(),
        other.digest(),
        "the party can be swapped freely"
    );

    // How firmly it is known is part of the claim: `asserted` must not be
    // silently upgradable to `attested`.
    let mut asserted = party.clone();
    asserted.accountability_source = Some("asserted".into());
    let mut attested = party.clone();
    attested.accountability_source = Some("attested".into());
    assert_ne!(
        asserted.digest(),
        attested.digest(),
        "provenance is unprotected"
    );

    let mut principal = base.clone();
    principal.principal_did = Some("did:web:acme.example:u:abc".into());
    assert_ne!(
        base.digest(),
        principal.digest(),
        "principal is unprotected"
    );

    let mut v7 = party.clone();
    v7 = v7.with_party_record(Some(7), Some("aa".into()));
    let mut v8 = party.clone();
    v8 = v8.with_party_record(Some(8), Some("aa".into()));
    assert_ne!(v7.digest(), v8.digest(), "party version is unprotected");

    let mut other_commit = party.clone();
    other_commit = other_commit.with_party_record(Some(7), Some("bb".into()));
    assert_ne!(
        v7.digest(),
        other_commit.digest(),
        "commitment is unprotected"
    );
    assert_ne!(
        party.digest(),
        v7.digest(),
        "absent version collides with present"
    );

    let replay = base
        .clone()
        .with_verdicts(Some(Decision::Allow), Some(Decision::Deny));
    let bad_evidence = base
        .clone()
        .with_verdicts(Some(Decision::Deny), Some(Decision::Deny));
    assert_ne!(base.digest(), replay.digest(), "verdicts are unprotected");
    assert_ne!(
        replay.digest(),
        bad_evidence.digest(),
        "a replay can be rewritten as an evidence failure"
    );

    // Absent must not be forgeable into empty.
    let mut empty = base.clone();
    empty.principal_did = Some(String::new());
    assert_ne!(base.digest(), empty.digest(), "absent collides with empty");
}

#[test]
fn digest_is_stable_and_excludes_seq() {
    let mut a = AuthzDecision::allow(DecisionKind::Verify, "did:key:zX");
    let before = a.digest();
    a.seq = 99; // seq is not part of the digest
    assert_eq!(before, a.digest());
}

#[test]
fn the_digest_is_the_hash_of_the_length_prefixed_record() {
    fn field(h: &mut sha2::Sha256, b: &[u8]) {
        h.update((b.len() as u64).to_le_bytes());
        h.update(b);
    }
    let d = AuthzDecision::deny(DecisionKind::Verify, "did:key:zX", Signal::Expired, "late")
        .with_action("tool:a")
        .with_correlation("urn:vc:1", "did:key:zI")
        .with_accountable_party(Some("team".into()))
        .with_party_record(Some(9), None)
        .with_verdicts(Some(Decision::Allow), None);
    let mut h = sha2::Sha256::new();
    h.update(b"agentcreds-adr-record-v2");
    field(&mut h, d.id.as_bytes());
    h.update(d.timestamp.timestamp().to_le_bytes());
    h.update(d.timestamp.subsec_nanos().to_le_bytes());
    for f in ["verify", "deny", "did:key:zX", "", "did:key:zI", "urn:vc:1"] {
        field(&mut h, f.as_bytes());
    }
    h.update([1u8]);
    field(&mut h, b"tool:a");
    h.update(0u32.to_le_bytes());
    h.update(0u32.to_le_bytes());
    h.update(1u64.to_le_bytes());
    field(&mut h, b"expired");
    h.update([1u8]);
    field(&mut h, b"late");
    h.update([0u8]); // no principal
    h.update([1u8]);
    field(&mut h, b"team");
    h.update([0u8]); // no source
    h.update([1u8]);
    h.update(9u64.to_le_bytes());
    h.update([0u8]); // no commitment
    h.update([1u8]);
    field(&mut h, b"allow");
    h.update([0u8]); // no admission
    assert_eq!(d.digest_hex(), hex::encode(h.finalize()));
}

#[test]
fn decision_kinds_round_trip_and_reject_unknown_names() {
    let all = [
        DecisionKind::Mint,
        DecisionKind::Attenuate,
        DecisionKind::Verify,
        DecisionKind::VerifyRooted,
        DecisionKind::Presentation,
        DecisionKind::Revocation,
    ];
    for k in all {
        let name = k.as_str();
        assert!(!name.is_empty());
        assert_eq!(
            DecisionKind::parse(name),
            Some(k),
            "{name} must parse back to the variant that emitted it"
        );
    }
    // Two variants sharing a name would silently merge records in the audit log.
    let mut names: Vec<&str> = all.iter().map(|k| k.as_str()).collect();
    names.sort_unstable();
    let before = names.len();
    names.dedup();
    assert_eq!(names.len(), before, "decision-kind names must be distinct");

    assert_eq!(DecisionKind::parse("not_a_kind"), None);
    assert_eq!(DecisionKind::parse(""), None);
    assert_eq!(
        DecisionKind::parse("Mint"),
        None,
        "parsing is exact - a case variant is a different name on the wire"
    );
}

#[test]
fn signals_round_trip_and_reject_unknown_names() {
    let all = [
        Signal::ScopeWideningAttempt,
        Signal::DelegationDepthExceeded,
        Signal::Expired,
        Signal::Revoked,
        Signal::IssuerMismatch,
        Signal::UnrootedAuthority,
        Signal::SignatureInvalid,
        Signal::ActionDenied,
        Signal::ProofOfPossessionFailed,
        Signal::Other,
    ];
    for sig in all {
        let name = sig.as_str();
        assert!(!name.is_empty());
        assert_eq!(
            Signal::parse(name),
            Some(sig),
            "{name} must parse back to the variant that emitted it"
        );
    }
    let mut names: Vec<&str> = all.iter().map(|s| s.as_str()).collect();
    names.sort_unstable();
    let before = names.len();
    names.dedup();
    assert_eq!(names.len(), before, "signal names must be distinct");

    assert_eq!(Signal::parse("no_such_signal"), None);
    assert_eq!(Signal::parse(""), None);
}

#[test]
fn errors_map_to_their_operator_visible_signal() {
    let cases: Vec<(AgentCredsError, Signal)> = vec![
        (
            AgentCredsError::ScopeWideningAttempt {
                capability: "tool:admin".into(),
            },
            Signal::ScopeWideningAttempt,
        ),
        (
            AgentCredsError::DelegationDepthExceeded { depth: 4, max: 3 },
            Signal::DelegationDepthExceeded,
        ),
        (
            AgentCredsError::CredentialExpired {
                expired_at: "2020-01-01T00:00:00Z".into(),
            },
            Signal::Expired,
        ),
        (
            AgentCredsError::IssuerMismatch {
                expected: "a".into(),
                got: "b".into(),
            },
            Signal::IssuerMismatch,
        ),
        (AgentCredsError::RootKeyMismatch, Signal::UnrootedAuthority),
        (
            AgentCredsError::InvalidRevocationListSignature,
            Signal::Revoked,
        ),
        (
            AgentCredsError::InvalidVcProof { reason: "x".into() },
            Signal::SignatureInvalid,
        ),
        (
            AgentCredsError::ProofOfPossessionFailed { reason: "x".into() },
            Signal::ProofOfPossessionFailed,
        ),
        (AgentCredsError::EntropyError, Signal::Other),
    ];
    for (err, want) in cases {
        assert_eq!(
            Signal::from_error(&err),
            want,
            "{err:?} must surface as {want:?}"
        );
    }
}

#[test]
fn the_accountability_builders_record_what_they_are_given() {
    let d = AuthzDecision::deny(
        DecisionKind::VerifyRooted,
        "did:key:zSubject",
        Signal::ActionDenied,
        "tool not in scope",
    )
    .with_action("tool:email")
    .with_correlation("urn:vc:agentcreds:abc", "did:key:zIssuer")
    .with_accountable_party(Some("team:payments".into()))
    .with_accountability_source(Some("policy".into()));

    assert_eq!(d.decision, Decision::Deny);
    assert_eq!(d.signals, vec![Signal::ActionDenied]);
    assert_eq!(d.reason.as_deref(), Some("tool not in scope"));
    assert_eq!(d.action.as_deref(), Some("tool:email"));
    assert_eq!(d.vc_id, "urn:vc:agentcreds:abc");
    assert_eq!(d.issuer_did, "did:key:zIssuer");
    assert_eq!(d.accountable_party.as_deref(), Some("team:payments"));
    assert_eq!(d.accountability_source.as_deref(), Some("policy"));

    // Clearing is a real operation, not a silent no-op.
    let cleared = d
        .clone()
        .with_accountable_party(None)
        .with_accountability_source(None);
    assert!(cleared.accountable_party.is_none());
    assert!(cleared.accountability_source.is_none());

    // An allow carries no signal or reason - the asymmetry is the point.
    let a = AuthzDecision::allow(DecisionKind::Mint, "did:key:zSubject");
    assert_eq!(a.decision, Decision::Allow);
    assert!(a.signals.is_empty());
    assert!(a.reason.is_none());
    assert!(a.id.starts_with("urn:adr:") && a.id.len() == 40);
}

#[test]
fn the_digest_covers_the_accountability_fields() {
    let base = AuthzDecision::allow(DecisionKind::Verify, "did:key:zSubject")
        .with_correlation("urn:vc:1", "did:key:zIssuer");

    let with_party = base.clone().with_accountable_party(Some("team:a".into()));
    let other_party = base.clone().with_accountable_party(Some("team:b".into()));

    assert_ne!(
        base.digest(),
        with_party.digest(),
        "naming an accountable party must change the digest"
    );
    assert_ne!(
        with_party.digest(),
        other_party.digest(),
        "a DIFFERENT accountable party must change the digest"
    );
    assert_ne!(
        with_party.digest(),
        with_party
            .clone()
            .with_accountability_source(Some("attested".into()))
            .digest(),
        "the basis for the party must be covered too"
    );

    // Hex is the same digest rendered - a consumer must be able to compare either.
    assert_eq!(
        with_party.digest_hex(),
        hex::encode(with_party.digest()),
        "digest_hex must render the digest, not recompute a different one"
    );
    assert_eq!(with_party.digest_hex().len(), 64);
}

#[test]
fn a_fresh_stream_and_sink_start_empty_and_advance() {
    let s = AdrStream::default();
    let mut s2 = AdrStream::default();
    assert_eq!(s.count(), 0);
    assert_eq!(s.head(), s2.head(), "two fresh streams start identically");

    s2.record(AuthzDecision::allow(DecisionKind::Mint, "did:key:zA"));
    assert_eq!(s2.count(), 1);
    assert_ne!(
        s.head(),
        s2.head(),
        "recording must advance the head - otherwise the chain attests to nothing"
    );

    let sink = InMemorySink::default();
    assert!(sink.is_empty(), "a fresh sink holds nothing");
    assert_eq!(sink.len(), 0);
    assert!(sink.snapshot().is_empty());
}
