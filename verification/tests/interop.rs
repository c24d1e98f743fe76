use agentcreds_core::did::{AgentIdentity, DidMethod, TrustAnchor};
use agentcreds_core::error::AgentCredsError;
use agentcreds_core::interop::{
    ClaimMap, CredentialIssuer, CredentialPresenter, CredentialVerifier, DidKeyTrust,
    IdentityClaimMap, KeyBindingChallenge, NativeInterop, PresentationRequest, TrustMap,
};
use agentcreds_core::json::{compact_text, Json};
use agentcreds_core::time::Timestamp;
use agentcreds_core::vc::{CapabilityClaims, CapabilityCredential, CredentialFormat};

fn claims() -> CapabilityClaims {
    CapabilityClaims::new(vec!["tool:search".into()], 3, 3600)
}

fn issued(format: CredentialFormat) -> (TrustAnchor, AgentIdentity, CapabilityCredential) {
    let anchor = TrustAnchor::generate().unwrap();
    let holder = AgentIdentity::create(DidMethod::Key, None).unwrap();
    let cred = NativeInterop
        .issue_credential(&anchor, holder.did(), claims(), None, format)
        .unwrap();
    (anchor, holder, cred)
}

#[test]
fn facade_round_trips_w3c() {
    let (anchor, holder, cred) = issued(CredentialFormat::W3cLinkedData);
    let io = NativeInterop;

    let wire = io
        .present_credential(
            &cred,
            &holder,
            &PresentationRequest::disclosing(&[]),
            "the wire form".into(),
        )
        .unwrap();
    assert_eq!(wire, "the wire form");

    let verified = io.verify_credential(Ok(cred), &anchor, None).unwrap();
    assert_eq!(verified.credential.format, CredentialFormat::W3cLinkedData);
    assert!(!verified.key_binding_verified);
}

#[test]
fn w3c_rejects_a_key_binding_request() {
    let (_anchor, holder, cred) = issued(CredentialFormat::W3cLinkedData);
    let req = PresentationRequest::bound(&[], "https://verifier.example", "n-42");
    assert!(NativeInterop
        .present_credential(&cred, &holder, &req, String::new())
        .is_err());
}

#[test]
fn sd_jwt_presentations_and_key_bindings_are_refused() {
    let (anchor, holder, cred) = issued(CredentialFormat::SdJwtVc);
    assert_eq!(
        NativeInterop
            .present_credential(
                &cred,
                &holder,
                &PresentationRequest::disclosing(&["model_version"]),
                String::new()
            )
            .unwrap_err()
            .to_string(),
        "VC proof verification failed: presenting an SD-JWT VC requires the `sd-jwt` feature"
    );
    let challenge = KeyBindingChallenge {
        audience: "https://verifier.example",
        nonce: "nonce-xyz",
    };
    assert_eq!(
        NativeInterop
            .verify_credential(Ok(cred), &anchor, Some(challenge))
            .unwrap_err()
            .to_string(),
        "VC proof verification failed: verifying a key-bound presentation requires the `sd-jwt` feature"
    );
}

#[test]
fn a_credential_is_verified_against_its_issuer_and_until_it_expires() {
    let (anchor, _holder, cred) = issued(CredentialFormat::W3cLinkedData);
    let stranger = TrustAnchor::generate().unwrap();
    assert!(matches!(
        NativeInterop.verify_credential(Ok(cred.clone()), &stranger, None),
        Err(AgentCredsError::IssuerMismatch { .. })
    ));
    let late = Timestamp::from_unix(chrono::Utc::now().timestamp() + 4000, 0).unwrap();
    let expiry = cred.expiration_date;
    match NativeInterop.verify_credential_at(Ok(cred), &anchor, None, late) {
        Err(AgentCredsError::CredentialExpired { expired_at }) => assert_eq!(
            expired_at,
            chrono::DateTime::from_timestamp(expiry.timestamp(), expiry.subsec_nanos())
                .unwrap()
                .to_rfc3339()
        ),
        other => panic!("{other:?}"),
    }
    // What could not be read is passed on.
    assert!(matches!(
        NativeInterop.verify_credential(Err(AgentCredsError::EntropyError), &anchor, None),
        Err(AgentCredsError::EntropyError)
    ));
}

#[test]
fn did_key_trust_resolves_did_key_issuer_offline() {
    let holder = AgentIdentity::create(DidMethod::Key, None).unwrap();
    assert!(holder.did().starts_with("did:key"));
    let resolved = DidKeyTrust.resolve_issuer(holder.did()).unwrap();
    assert_eq!(resolved.did(), holder.did());
}

#[test]
fn identity_claim_map_is_actually_the_identity() {
    let claims = Json::Object(vec![
        ("empty".into(), Json::Object(vec![])),
        (
            "nested".into(),
            Json::Object(vec![
                (
                    "arr".into(),
                    Json::List(vec![Json::Whole(1), Json::Whole(2), Json::Whole(3)]),
                ),
                ("budget_usd".into(), Json::Whole(100)),
            ]),
        ),
        (
            "tools".into(),
            Json::List(vec![Json::Text("tool:search".into())]),
        ),
    ]);
    let text = compact_text(&claims);
    assert_eq!(
        text,
        "{\"empty\":{},\"nested\":{\"arr\":[1,2,3],\"budget_usd\":100},\"tools\":[\"tool:search\"]}"
    );
    let map = IdentityClaimMap;
    assert_eq!(
        compact_text(&map.map_out(&claims)),
        text,
        "map_out must be the identity"
    );
    assert_eq!(
        compact_text(&map.map_in(&claims)),
        text,
        "map_in must be the identity"
    );
    // Round-tripping through both directions is also the identity.
    assert_eq!(compact_text(&map.map_in(&map.map_out(&claims))), text);
}
