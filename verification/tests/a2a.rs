use agentcreds_core::a2a::Presentation;
use agentcreds_core::delegation::{Action, DelegationToken, Scope};
use agentcreds_core::did::{AgentIdentity, DidMethod, TrustAnchor};
use agentcreds_core::error::AgentCredsError;
use agentcreds_core::vc::{CapabilityClaims, CapabilityCredential};

const RECEIVER: &str = "a2a://orders.example/agent";

/// A presentation, and what verifying its token against its credential and anchor gives.
fn presentation_for(audience: Option<&str>) -> (Presentation, Result<(), AgentCredsError>) {
    let anchor = TrustAnchor::generate().unwrap();
    let agent = AgentIdentity::create(DidMethod::Key, None).unwrap();
    let claims = CapabilityClaims::new(vec!["tool:search".into()], 1, 3600);
    let vc = CapabilityCredential::issue(&anchor, agent.did(), claims, None).unwrap();
    let scope = Scope::with_budget_and_depth(vec!["tool:search".into()], None, 1);
    let token = DelegationToken::mint(&vc, scope, 300, &agent).unwrap();
    let verified = token.verify_rooted(&Action::new("tool:search", "q=ok"), &vc, &anchor);
    let presentation = Presentation {
        cbor: token.to_wire().biscuit,
        audience: audience.map(str::to_string),
    };
    (presentation, verified)
}

#[test]
fn header_round_trip_and_verify() {
    let (presentation, verified) = presentation_for(Some(RECEIVER));
    let header = presentation.to_a2a_header().unwrap();
    assert!(header.starts_with("AgentCreds-A2A/1."));

    let received = Presentation::from_a2a_header(&header).unwrap();
    assert_eq!(received, presentation.cbor);
    assert!(presentation.verify_a2a(RECEIVER, verified).is_ok());
}

#[test]
fn wrong_audience_rejected() {
    let (presentation, verified) = presentation_for(Some(RECEIVER));
    // A different receiver must not accept a header minted for RECEIVER.
    assert!(presentation
        .verify_a2a("a2a://evil.example/agent", verified)
        .is_err());
}

#[test]
fn missing_audience_rejected() {
    let (presentation, verified) = presentation_for(None);
    assert!(presentation.verify_a2a(RECEIVER, verified).is_err());
}

#[test]
fn missing_scheme_prefix_rejected() {
    assert!(Presentation::from_a2a_header("not-a-header").is_err());
    assert_eq!(
        Presentation::from_a2a_header("not-a-header")
            .unwrap_err()
            .to_string(),
        "value out of bounds for field 'a2a_header': missing 'AgentCreds-A2A/1.' scheme prefix"
    );
}

#[test]
fn tampered_header_body_rejected() {
    let (presentation, _) = presentation_for(Some(RECEIVER));
    let header = presentation.to_a2a_header().unwrap();
    // Corrupt a character in the base64url body.
    let mut chars: Vec<char> = header.chars().collect();
    let last = chars.len() - 1;
    chars[last] = if chars[last] == 'A' { 'B' } else { 'A' };
    let tampered: String = chars.into_iter().collect();
    // Either decoding fails or other bytes come out - never the same presentation.
    match Presentation::from_a2a_header(&tampered) {
        Ok(bytes) => assert_ne!(bytes, presentation.cbor),
        Err(e) => assert!(e
            .to_string()
            .starts_with("value out of bounds for field 'a2a_header': invalid base64url body: ")),
    }
}

#[test]
fn the_error_of_the_presentation_itself_is_passed_on() {
    let p = Presentation {
        cbor: vec![1, 2, 3],
        audience: Some(RECEIVER.into()),
    };
    assert_eq!(p.to_a2a_header().unwrap(), "AgentCreds-A2A/1.AQID");
    assert!(matches!(
        p.verify_a2a(RECEIVER, Err(AgentCredsError::RootKeyMismatch)),
        Err(AgentCredsError::RootKeyMismatch)
    ));
}
