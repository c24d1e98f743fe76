use agentcreds_core::bbs::{
    BbsCredential, BbsIssuer, BbsPresentation, BbsPublicKey, RevealedMessage,
};
use agentcreds_core::did::TrustAnchor;
use agentcreds_core::error::AgentCredsError;
use agentcreds_core::json::{compact_text, Json, JsonMap};
use agentcreds_core::time::Timestamp;

fn list(items: &[&str]) -> Json {
    Json::List(items.iter().map(|s| Json::Text((*s).to_string())).collect())
}

fn issued() -> (BbsIssuer, BbsCredential) {
    let issuer = BbsIssuer::generate();
    let mut claims = JsonMap::new();
    claims.insert("tools".to_string(), list(&["tool:search", "tool:email"]));
    claims.insert("budget_usd".to_string(), Json::Whole(500));
    claims.insert("authorized_by".to_string(), Json::Text("did:key:zSecretBoss".to_string()));
    let cred = BbsCredential::issue(&issuer, "did:key:zAgent", &claims, 3600).unwrap();
    (issuer, cred)
}

fn issued_for(anchor: &TrustAnchor) -> (BbsIssuer, BbsCredential) {
    let issuer = BbsIssuer::for_anchor(anchor).unwrap();
    let mut claims = JsonMap::new();
    claims.insert("tools".to_string(), list(&["tool:search"]));
    claims.insert("budget_usd".to_string(), Json::Whole(500));
    let cred = BbsCredential::issue(&issuer, "did:key:zAgent", &claims, 3600).unwrap();
    (issuer, cred)
}

#[test]
fn bound_issuer_credential_traces_to_did_anchor() {
    let anchor = TrustAnchor::generate().unwrap();
    let (issuer, cred) = issued_for(&anchor);
    assert_eq!(issuer.did(), anchor.did());

    let pk = issuer.public_key();
    assert!(pk.is_bound());
    assert_eq!(pk.did(), anchor.did());
    assert!(pk.verify_binding().is_ok());

    let pres = cred.derive_proof(&["tools"], b"n").unwrap();
    let d = pres.verify(&pk, b"n").unwrap();
    assert_eq!(d.issuer, anchor.did());
}

#[test]
fn forged_bbs_key_binding_is_rejected() {
    let anchor = TrustAnchor::generate().unwrap();
    let (issuer, cred) = issued_for(&anchor);
    let pk = issuer.public_key();
    let mut attestation = pk.attestation().to_vec();
    attestation[0] ^= 0xFF;
    let pk = BbsPublicKey::from_parts(pk.as_bytes().to_vec(), pk.did().to_string(), attestation);
    assert!(pk.verify_binding().is_err());
    let pres = cred.derive_proof(&["tools"], b"n").unwrap();
    assert!(pres.verify(&pk, b"n").is_err());
}

#[test]
fn bbs_key_claiming_a_did_it_does_not_control_is_rejected() {
    let attacker = TrustAnchor::generate().unwrap();
    let (issuer, _cred) = issued_for(&attacker);
    let victim = TrustAnchor::generate().unwrap();
    let pk = issuer.public_key();
    let pk = BbsPublicKey::from_parts(
        pk.as_bytes().to_vec(),
        victim.did().to_string(),
        pk.attestation().to_vec(),
    );
    assert!(pk.verify_binding().is_err());
}

#[test]
fn unbound_issuer_still_works() {
    let (issuer, cred) = issued();
    let pk = issuer.public_key();
    assert!(!pk.is_bound());
    assert_eq!(pk.did(), "bbs-issuer");
    let pres = cred.derive_proof(&["tools"], b"n").unwrap();
    assert!(pres.verify(&pk, b"n").is_ok());
}

#[test]
fn reveal_all_verifies() {
    let (issuer, cred) = issued();
    let pk = issuer.public_key();
    let names = cred.disclosable_claims();
    let refs: Vec<&str> = names.iter().map(String::as_str).collect();
    let pres = cred.derive_proof(&refs, b"n").unwrap();
    let d = pres.verify(&pk, b"n").unwrap();
    assert_eq!(d.subject, "did:key:zAgent");
    assert!(d.disclosed.contains_key("tools"));
    assert!(d.disclosed.contains_key("budget_usd"));
}

#[test]
fn selective_disclosure_hides_the_rest() {
    let (issuer, cred) = issued();
    let pk = issuer.public_key();
    let pres = cred.derive_proof(&["tools"], b"n").unwrap();
    let d = pres.verify(&pk, b"n").unwrap();
    assert!(d.disclosed.contains_key("tools"));
    assert!(!d.disclosed.contains_key("budget_usd"));
    assert!(!d.disclosed.contains_key("authorized_by"));
    assert_eq!(
        compact_text(d.disclosed.get("tools").unwrap()),
        compact_text(&list(&["tool:search", "tool:email"]))
    );
}

#[test]
fn hidden_claim_not_in_presentation_bytes() {
    let (_issuer, cred) = issued();
    let pres = cred.derive_proof(&["tools"], b"n").unwrap();
    let shown = format!("{pres:?}");
    assert!(shown.contains("tool:search"));
    assert!(!shown.contains("zSecretBoss"));
    assert!(!String::from_utf8_lossy(pres.proof_bytes()).contains("zSecretBoss"));
}

#[test]
fn unlinkable_two_proofs_differ() {
    let (_issuer, cred) = issued();
    let p1 = cred.derive_proof(&["tools"], b"n").unwrap();
    let p2 = cred.derive_proof(&["tools"], b"n").unwrap();
    assert_ne!(p1.proof_bytes(), p2.proof_bytes());
}

#[test]
fn wrong_issuer_key_rejected() {
    let (_issuer, cred) = issued();
    let other = BbsIssuer::generate();
    let pres = cred.derive_proof(&["tools"], b"n").unwrap();
    assert!(pres.verify(&other.public_key(), b"n").is_err());
}

#[test]
fn nonce_mismatch_rejected() {
    let (issuer, cred) = issued();
    let pres = cred.derive_proof(&["tools"], b"issued-nonce").unwrap();
    assert!(pres
        .verify(&issuer.public_key(), b"different-nonce")
        .is_err());
}

#[test]
fn tampered_revealed_value_rejected() {
    let (issuer, cred) = issued();
    let pres = cred.derive_proof(&["tools"], b"n").unwrap();
    let mut revealed = pres.revealed().clone();
    for r in &mut revealed {
        if r.name == "tools" {
            r.value = list(&["tool:admin"]);
        }
    }
    let pres = BbsPresentation::from_parts(
        pres.total_messages(),
        revealed,
        pres.proof_bytes().to_vec(),
        pres.nonce().to_vec(),
    )
    .unwrap();
    assert!(pres.verify(&issuer.public_key(), b"n").is_err());
}

#[test]
fn a_presentation_is_a_function_of_its_seed() {
    let (issuer, cred) = issued();
    let a = cred.derive_proof_from(&["tools"], b"n", [1u8; 32]).unwrap();
    let b = cred.derive_proof_from(&["tools"], b"n", [1u8; 32]).unwrap();
    let c = cred.derive_proof_from(&["tools"], b"n", [2u8; 32]).unwrap();
    assert_eq!(a.proof_bytes(), b.proof_bytes());
    assert_ne!(a.proof_bytes(), c.proof_bytes());
    assert!(a.verify(&issuer.public_key(), b"n").is_ok());
    assert!(c.verify(&issuer.public_key(), b"n").is_ok());
}

#[test]
fn a_presentation_is_good_until_the_credential_expires() {
    let (issuer, cred) = issued();
    let pk = issuer.public_key();
    let pres = cred.derive_proof(&[], b"n").unwrap();
    let at = |s: i64| Timestamp::from_unix(s, 0).unwrap();
    let d = pres.verify_at(&pk, b"n", at(cred.expires_at - 1)).unwrap();
    assert_eq!(d.expires_at, at(cred.expires_at));
    assert_eq!(d.issuer, "bbs-issuer");
    assert!(pres.verify_at(&pk, b"n", at(cred.expires_at + 1)).is_err());
    assert_eq!(pres.total_messages(), 7);
    assert_eq!(pres.nonce(), b"n");
}

#[test]
fn a_malformed_presentation_is_not_taken_in() {
    let m = RevealedMessage {
        index: 3,
        name: "vct".into(),
        value: Json::Null,
    };
    assert!(BbsPresentation::from_parts(0, vec![], vec![], vec![]).is_none());
    assert!(BbsPresentation::from_parts(3, vec![m.clone()], vec![], vec![]).is_none());
    let p = BbsPresentation::from_parts(4, vec![m], vec![1, 2], vec![]).unwrap();
    let (issuer, _) = issued();
    assert!(p.verify(&issuer.public_key(), b"").is_err());
}

#[test]
fn claims_are_disclosed_by_name_in_order() {
    let (_issuer, cred) = issued();
    assert_eq!(
        cred.disclosable_claims(),
        ["authorized_by", "budget_usd", "tools"]
    );
    let pres = cred.derive_proof(&["tools", "budget_usd"], b"n").unwrap();
    let names: Vec<(usize, &str)> = pres
        .revealed()
        .iter()
        .map(|m| (m.index, m.name.as_str()))
        .collect();
    assert_eq!(
        names,
        [(0, "iss"), (1, "sub"), (2, "exp"), (3, "vct"), (5, "budget_usd"), (6, "tools")]
    );
}

#[test]
fn a_signing_failure_is_reported() {
    let r = BbsCredential::with_answer("iss", "sub", 7, Vec::new(), Err("no entropy".into()));
    assert!(matches!(r, Err(AgentCredsError::CryptoError { .. })));
    let c = BbsCredential::with_answer("iss", "sub", 7, Vec::new(), Ok(vec![1, 2])).unwrap();
    assert_eq!(c.issuer_id, "iss");
    assert_eq!(c.subject, "sub");
    assert_eq!(c.expires_at, 7);
    assert_eq!(c.signature, vec![1, 2]);
}

#[test]
fn a_presentation_that_reveals_an_index_twice_is_not_taken_in() {
    let (_issuer, cred) = issued();
    let pres = cred.derive_proof(&["tools"], b"n").unwrap();
    let mut revealed = pres.revealed().clone();
    let forged = RevealedMessage {
        index: revealed[4].index,
        name: "admin".into(),
        value: Json::Bool(true),
    };
    revealed.insert(0, forged);
    assert!(BbsPresentation::from_parts(
        pres.total_messages(),
        revealed,
        pres.proof_bytes().to_vec(),
        pres.nonce().to_vec(),
    )
    .is_none());
}
