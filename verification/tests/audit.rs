use agentcreds_core::audit::{AuditCompositor, AuditLog};
use agentcreds_core::did::TrustAnchor;
use agentcreds_core::time::Timestamp;
use sha2::Digest;

const CORR: &str = "urn:vc:shared-delegation";

fn org_logs() -> (TrustAnchor, TrustAnchor, AuditLog, AuditLog) {
    let org_a = TrustAnchor::generate().unwrap();
    let org_b = TrustAnchor::generate().unwrap();
    let mut log_a = AuditLog::new(CORR, org_a.did());
    log_a.record("did:key:zAgentA", "tool:search", "allow");
    log_a.record("did:key:zAgentA", "tool:email", "deny");
    let mut log_b = AuditLog::new(CORR, org_b.did());
    log_b.record("did:key:zAgentB", "tool:order", "allow");
    (org_a, org_b, log_a, log_b)
}

#[test]
fn composites_two_orgs_into_one_chain() {
    let (org_a, org_b, log_a, log_b) = org_logs();
    let mut comp = AuditCompositor::new(CORR);
    comp.ingest(&log_a.export(&org_a).unwrap(), &org_a).unwrap();
    comp.ingest(&log_b.export(&org_b).unwrap(), &org_b).unwrap();
    assert_eq!(comp.chain_of_custody().len(), 3);
    // Both orgs appear.
    let orgs: Vec<&str> = comp
        .chain_of_custody()
        .iter()
        .map(|e| e.org_id.as_str())
        .collect();
    assert!(orgs.contains(&org_a.did()));
    assert!(orgs.contains(&org_b.did()));
}

#[test]
fn raw_action_never_leaves_the_org() {
    let (org_a, _b, log_a, _lb) = org_logs();
    let exported = log_a.export(&org_a).unwrap();
    // The shared commitments contain no raw action/agent strings.
    let shown = format!("{exported:?}");
    assert!(!shown.contains("tool:search"));
    assert!(!shown.contains("zAgentA"));
}

#[test]
fn tampered_commitment_signature_rejected() {
    let (org_a, _b, log_a, _lb) = org_logs();
    let mut exported = log_a.export(&org_a).unwrap();
    exported[0].commitment = "deadbeef".repeat(8); // changed after signing
    let mut comp = AuditCompositor::new(CORR);
    assert!(comp.ingest(&exported, &org_a).is_err());
}

#[test]
fn wrong_anchor_rejected() {
    let (org_a, _b, log_a, _lb) = org_logs();
    let exported = log_a.export(&org_a).unwrap();
    let stranger = TrustAnchor::generate().unwrap();
    let mut comp = AuditCompositor::new(CORR);
    assert!(comp.ingest(&exported, &stranger).is_err());
}

#[test]
fn selective_reveal_matches_commitment() {
    let (org_a, _b, log_a, _lb) = org_logs();
    let mut comp = AuditCompositor::new(CORR);
    comp.ingest(&log_a.export(&org_a).unwrap(), &org_a).unwrap();
    // Reveal record 0 - it matches the composited commitment.
    let revealed = log_a.revealed(0).unwrap();
    assert!(comp.verify_revealed(revealed).unwrap());
    // A doctored copy does not match.
    let mut forged = revealed.clone();
    forged.action = "tool:exfiltrate".into();
    assert!(!comp.verify_revealed(&forged).unwrap());
    // One that was never composited is refused.
    forged.seq = 9;
    assert_eq!(
        comp.verify_revealed(&forged).unwrap_err().to_string(),
        "VC proof verification failed: no composited entry for this record"
    );
    assert!(log_a.revealed(2).is_none());
}

#[test]
fn root_hash_is_order_independent_of_ingest() {
    let (org_a, org_b, log_a, log_b) = org_logs();
    let ea = log_a.export(&org_a).unwrap();
    let eb = log_b.export(&org_b).unwrap();

    let mut c1 = AuditCompositor::new(CORR);
    c1.ingest(&ea, &org_a).unwrap();
    c1.ingest(&eb, &org_b).unwrap();

    let mut c2 = AuditCompositor::new(CORR);
    c2.ingest(&eb, &org_b).unwrap();
    c2.ingest(&ea, &org_a).unwrap();

    // Same commitments, ingested in either order -> same joint root.
    assert_eq!(c1.root_hash(), c2.root_hash());
}

#[test]
fn idempotent_reingest_does_not_duplicate() {
    let (org_a, _b, log_a, _lb) = org_logs();
    let exported = log_a.export(&org_a).unwrap();
    let mut comp = AuditCompositor::new(CORR);
    comp.ingest(&exported, &org_a).unwrap();
    comp.ingest(&exported, &org_a).unwrap(); // again
    assert_eq!(comp.len(), 2);
}

#[test]
fn wrong_correlation_rejected() {
    let (org_a, _b, log_a, _lb) = org_logs();
    let exported = log_a.export(&org_a).unwrap();
    let mut comp = AuditCompositor::new("urn:vc:different");
    assert!(comp.ingest(&exported, &org_a).is_err());
}

#[test]
fn the_chain_is_ordered_by_time_even_after_a_refusal() {
    let org = TrustAnchor::generate().unwrap();
    let at = |s: i64| Timestamp::from_unix(s, 0).unwrap();
    let mut log = AuditLog::new(CORR, org.did());
    assert_eq!(log.record_at("a", "late", "allow", at(30)), 0);
    assert_eq!(log.record_at("a", "early", "allow", at(10)), 1);
    assert_eq!(log.record_at("a", "middle", "allow", at(20)), 2);
    let mut exported = log.export(&org).unwrap();
    let mut comp = AuditCompositor::new(CORR);
    comp.ingest(&exported, &org).unwrap();
    let seqs: Vec<u64> = comp.chain_of_custody().iter().map(|e| e.seq).collect();
    assert_eq!(seqs, [1, 2, 0]);

    // What comes before a refused commitment stays, in its place.
    exported[2].signature = "AAAA".into();
    let mut partial = AuditCompositor::new(CORR);
    assert!(partial.is_empty());
    assert_eq!(
        partial.ingest(&exported, &org).unwrap_err().to_string(),
        "VC proof verification failed: commitment signature does not verify"
    );
    let seqs: Vec<u64> = partial.chain_of_custody().iter().map(|e| e.seq).collect();
    assert_eq!(seqs, [1, 0]);
}

#[test]
fn a_conflicting_republication_is_named() {
    let org = TrustAnchor::generate().unwrap();
    let mut first = AuditLog::new(CORR, org.did());
    first.record("a", "tool:x", "allow");
    let mut second = AuditLog::new(CORR, org.did());
    second.record("a", "tool:y", "allow");
    let mut comp = AuditCompositor::new(CORR);
    comp.ingest(&first.export(&org).unwrap(), &org).unwrap();
    assert_eq!(
        comp.ingest(&second.export(&org).unwrap(), &org)
            .unwrap_err()
            .to_string(),
        format!(
            "VC proof verification failed: conflicting commitment for {} seq 0",
            org.did()
        )
    );
    let other = TrustAnchor::generate().unwrap();
    assert_eq!(
        first.export(&other).unwrap_err().to_string(),
        "VC proof verification failed: anchor does not match this log's org"
    );
}

#[test]
fn the_commitment_is_the_hash_of_the_length_prefixed_record_and_its_salt() {
    fn field(h: &mut sha2::Sha256, b: &[u8]) {
        h.update((b.len() as u64).to_le_bytes());
        h.update(b);
    }
    let mut log = AuditLog::new("corr", "org");
    log.record_at("agent", "act", "ok", Timestamp::from_unix(77, 5).unwrap());
    let r = log.revealed(0).unwrap();
    assert_eq!(r.salt.len(), 16);
    let mut h = sha2::Sha256::new();
    h.update(b"agentcreds-audit-record-v1");
    field(&mut h, b"corr");
    field(&mut h, b"org");
    h.update(0u64.to_le_bytes());
    field(&mut h, b"agent");
    field(&mut h, b"act");
    field(&mut h, b"ok");
    h.update(77i64.to_le_bytes());
    field(&mut h, &r.salt);
    assert_eq!(r.commitment(), hex::encode(h.finalize()));
}

#[test]
fn a_root_covers_every_entry_to_the_nanosecond() {
    let (org_a, _b, log_a, _lb) = org_logs();
    let exported = log_a.export(&org_a).unwrap();
    let mut whole = AuditCompositor::new(CORR);
    whole.ingest(&exported, &org_a).unwrap();
    let mut bytes = b"agentcreds-audit-commitment-v1".to_vec();
    let field = |bytes: &mut Vec<u8>, s: &str| {
        bytes.extend((s.len() as u64).to_le_bytes());
        bytes.extend(s.as_bytes());
    };
    field(&mut bytes, CORR);
    for e in whole.chain_of_custody() {
        field(&mut bytes, &e.org_id);
        bytes.extend(e.seq.to_le_bytes());
        bytes.extend(e.timestamp.timestamp().to_le_bytes());
        bytes.extend(e.timestamp.subsec_nanos().to_le_bytes());
        field(&mut bytes, &e.commitment);
    }
    let expected: String = sha2::Sha256::digest(&bytes)
        .iter()
        .map(|b| format!("{b:02x}"))
        .collect();
    assert_eq!(whole.root_hash(), expected);
    let mut nudged = exported.clone();
    let t = nudged[0].timestamp;
    let nanos = if t.subsec_nanos() == 0 { 1 } else { 0 };
    nudged[0].timestamp = Timestamp::from_unix(t.timestamp(), nanos).unwrap();
    let mut moved = AuditCompositor::new(CORR);
    moved.ingest(&nudged, &org_a).unwrap();
    assert_ne!(moved.root_hash(), whole.root_hash());
    let mut shorter = AuditCompositor::new(CORR);
    shorter.ingest(&exported[..1].to_vec(), &org_a).unwrap();
    assert_ne!(shorter.root_hash(), whole.root_hash());
    assert_ne!(
        AuditCompositor::new("other").root_hash(),
        AuditCompositor::new(CORR).root_hash()
    );
}
