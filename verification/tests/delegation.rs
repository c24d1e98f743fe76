use agentcreds_core::approval::{
    ApprovalEvidence, ApproverDirectory, ApproverEntry, ConsumedApprovals, Gate,
};
use agentcreds_core::delegation::datalog::datalog_str;
use agentcreds_core::delegation::reading::{
    check_delegation_key, check_delegation_secret, read_rows, required, Rows, AUTHORIZER_MAX_SECS,
};
use agentcreds_core::delegation::token::request_plan;
use agentcreds_core::delegation::{Action, DelegationToken, DelegationTokenWire, Hop, Scope};
use agentcreds_core::did::{AgentIdentity, DidMethod, InMemoryResolver, TrustAnchor};
use agentcreds_core::error::AgentCredsError;
use agentcreds_core::time::Timestamp;
use agentcreds_core::vc::{
    CapabilityClaims, CapabilityCredential, HumanAuthorization, MAX_VALID_FOR_SECS,
};

struct HumanIdentity {
    did: String,
}

impl HumanIdentity {
    fn did(&self) -> &str {
        &self.did
    }
}

fn now_unix() -> i64 {
    chrono::Utc::now().timestamp()
}

fn at(secs: i64) -> Timestamp {
    Timestamp::from_unix(secs, 0).unwrap()
}

fn shifted(t: Timestamp, nanos: i64) -> Timestamp {
    let total = i128::from(t.timestamp()) * 1_000_000_000
        + i128::from(t.subsec_nanos())
        + i128::from(nanos);
    Timestamp::from_unix(
        (total / 1_000_000_000) as i64,
        (total % 1_000_000_000) as u32,
    )
    .unwrap()
}

/// The token with its first hop edited on the way.
fn with_hop(
    token: &DelegationToken,
    edit: impl FnOnce(&mut Hop),
) -> Result<DelegationToken, AgentCredsError> {
    let mut wire = token.to_wire();
    edit(&mut wire.hops[0]);
    DelegationToken::from_wire(wire)
}

fn small_token(credential_depth: u32, depth: u32) -> DelegationToken {
    let anchor = TrustAnchor::generate().unwrap();
    let agent = AgentIdentity::create(DidMethod::Key, None).unwrap();
    let mut claims = CapabilityClaims::new(vec!["tool:search".into()], credential_depth, 3600);
    claims.budget_usd = Some(10);
    let vc = CapabilityCredential::issue(&anchor, agent.did(), claims, None).unwrap();
    let scope = Scope::with_budget_and_depth(vec!["tool:search".into()], Some(10), depth);
    DelegationToken::mint(&vc, scope, 300, &agent).unwrap()
}

fn setup() -> (TrustAnchor, AgentIdentity, CapabilityCredential) {
    let anchor = TrustAnchor::generate().unwrap();
    let agent = AgentIdentity::create(DidMethod::Key, None).unwrap();
    let claims = CapabilityClaims {
        tools: vec![
            "tool:search".into(),
            "tool:email".into(),
            "tool:calendar".into(),
        ],
        resources: None,
        budget_usd: Some(500),
        max_delegation_depth: 3,
        valid_for_secs: 3600,
        autonomy_level: 0,
        token_ttl_ceiling_secs: 3600,
        on_behalf_of: None,
        required_gates: Vec::new(),
    };
    let vc = CapabilityCredential::issue(&anchor, agent.did(), claims, None).unwrap();
    (anchor, agent, vc)
}

#[test]
fn mint_and_verify_simple_action() {
    let (_anchor, agent, vc) = setup();
    let scope = Scope::with_budget_and_depth(vec!["tool:search".into()], Some(100), 2);
    let token = DelegationToken::mint(&vc, scope, 300, &agent).unwrap();
    assert!(token.verify(&Action::new("tool:search", "q=test")).is_ok());
}

#[test]
fn action_for_unpermitted_tool_is_rejected() {
    let (_anchor, agent, vc) = setup();
    let scope = Scope::with_budget_and_depth(vec!["tool:search".into()], Some(100), 2);
    let token = DelegationToken::mint(&vc, scope, 300, &agent).unwrap();
    assert!(matches!(
        token.verify(&Action::new("tool:email", "to=evil")),
        Err(AgentCredsError::ActionDenied { .. })
    ));
}

#[test]
fn attenuate_narrows_scope() {
    let (_anchor, agent, vc) = setup();
    let scope = Scope::with_budget_and_depth(
        vec!["tool:search".into(), "tool:email".into()],
        Some(100),
        2,
    );
    let token = DelegationToken::mint(&vc, scope, 300, &agent).unwrap();

    let sub = AgentIdentity::create(DidMethod::Key, None).unwrap();
    let narrow = Scope::with_budget_and_depth(vec!["tool:search".into()], Some(10), 1);
    let child = token.attenuate(narrow, 60, &sub).unwrap();
    assert_eq!(child.depth(), 1);
    assert!(child.verify(&Action::new("tool:search", "q=ok")).is_ok());
    assert!(child.verify(&Action::new("tool:email", "")).is_err());
}

#[test]
fn scope_widening_is_rejected() {
    let (_anchor, agent, vc) = setup();
    let scope = Scope::with_budget_and_depth(vec!["tool:search".into()], Some(100), 2);
    let token = DelegationToken::mint(&vc, scope, 300, &agent).unwrap();

    let sub = AgentIdentity::create(DidMethod::Key, None).unwrap();
    let wider =
        Scope::with_budget_and_depth(vec!["tool:search".into(), "tool:email".into()], Some(10), 1);
    assert!(matches!(
        token.attenuate(wider, 60, &sub),
        Err(AgentCredsError::ScopeWideningAttempt { .. })
    ));
}

#[test]
fn authorizer_limits_uses_one_second_backstop() {
    assert_eq!(AUTHORIZER_MAX_SECS, 1);
}

#[test]
fn first_widening_capability_names_the_widening_tool() {
    let parent = Scope::with_budget_and_depth(vec!["tool:a".into()], None, 1);
    let wider = Scope::with_budget_and_depth(vec!["tool:a".into(), "tool:b".into()], None, 1);
    assert_eq!(
        wider.first_widening_capability(&parent),
        Some("tool:b".to_string())
    );
    assert_eq!(parent.first_widening_capability(&wider), None);
}

#[test]
fn budget_widening_is_rejected_on_attenuate() {
    let (_anchor, agent, vc) = setup();
    let scope = Scope::with_budget_and_depth(vec!["tool:search".into()], Some(100), 2);
    let token = DelegationToken::mint(&vc, scope, 300, &agent).unwrap();
    let sub = AgentIdentity::create(DidMethod::Key, None).unwrap();
    let wider_budget = Scope::with_budget_and_depth(vec!["tool:search".into()], Some(500), 1);
    assert!(matches!(
        token.attenuate(wider_budget, 60, &sub),
        Err(AgentCredsError::ScopeWideningAttempt { .. })
    ));
}

#[test]
fn root_and_leaf_accessors_reflect_the_token() {
    let (_anchor, agent, vc) = setup();
    let scope = Scope::with_budget_and_depth(vec!["tool:search".into()], Some(100), 2);
    let token = DelegationToken::mint(&vc, scope, 300, &agent).unwrap();

    assert_eq!(token.root_agent_did(), agent.did());
    assert_eq!(token.max_delegation_depth(), 2);

    let binding = token.leaf_binding();
    assert_eq!(binding.len(), 64);
    assert!(binding.chars().all(|c| c.is_ascii_hexdigit()));

    let sub = AgentIdentity::create(DidMethod::Key, None).unwrap();
    let child = token
        .attenuate(
            Scope::with_budget_and_depth(vec!["tool:search".into()], Some(10), 1),
            60,
            &sub,
        )
        .unwrap();
    assert_ne!(
        child.leaf_binding(),
        binding,
        "a distinct chain must have a distinct leaf binding"
    );
    assert_eq!(child.root_agent_did(), agent.did());
}

#[test]
fn root_resources_reflect_the_minted_allowlist() {
    let (_anchor, _vc, _human, token) = gated_token();
    assert_eq!(
        token.root_resources().as_slice(),
        ["mailbox:alice@acme.com/42".to_string()]
    );
}

#[test]
fn vc_pinned_gate_is_merged_and_enforced_for_the_action_tool() {
    let anchor = TrustAnchor::generate().unwrap();
    let agent = AgentIdentity::create(DidMethod::Key, None).unwrap();
    let action = Action::new("tool:search", "q=ok");
    let now = now_unix();

    let mut claims = CapabilityClaims::new(vec!["tool:search".into()], 2, 3600);
    claims.required_gates = vec![Gate::approval("tool:search")];
    let vc = CapabilityCredential::issue(&anchor, agent.did(), claims, None).unwrap();
    let scope = Scope::with_budget_and_depth(vec!["tool:search".into()], Some(100), 1);
    let token = DelegationToken::mint(&vc, scope, 300, &agent).unwrap();
    assert!(
        matches!(
            token.verify_rooted_gated_with_directory(
                &action,
                &vc,
                &anchor,
                &[],
                None,
                &[Gate::APPROVAL],
                now,
            ),
            Err(AgentCredsError::ActionDenied { .. })
        ),
        "a VC-pinned gate for the action's tool must be enforced"
    );

    let mut claims2 = CapabilityClaims::new(vec!["tool:search".into()], 2, 3600);
    claims2.required_gates = vec![Gate::approval("tool:other")];
    let vc2 = CapabilityCredential::issue(&anchor, agent.did(), claims2, None).unwrap();
    let scope2 = Scope::with_budget_and_depth(vec!["tool:search".into()], Some(100), 1);
    let token2 = DelegationToken::mint(&vc2, scope2, 300, &agent).unwrap();
    assert!(
        token2
            .verify_rooted_gated_with_directory(
                &action,
                &vc2,
                &anchor,
                &[],
                None,
                &[Gate::APPROVAL],
                now,
            )
            .is_ok(),
        "a VC gate for a different tool must not gate this action"
    );
}

#[test]
fn three_hop_chain_verifies() {
    let (_anchor, agent1, vc) = setup();
    let agent2 = AgentIdentity::create(DidMethod::Key, None).unwrap();
    let agent3 = AgentIdentity::create(DidMethod::Key, None).unwrap();

    let s1 = Scope::with_budget_and_depth(
        vec!["tool:search".into(), "tool:email".into()],
        Some(100),
        3,
    );
    let t1 = DelegationToken::mint(&vc, s1, 300, &agent1).unwrap();
    let s2 = Scope::with_budget_and_depth(vec!["tool:search".into()], Some(50), 2);
    let t2 = t1.attenuate(s2, 120, &agent2).unwrap();
    let s3 = Scope::with_budget_and_depth(vec!["tool:search".into()], Some(10), 1);
    let t3 = t2.attenuate(s3, 30, &agent3).unwrap();

    assert_eq!(t3.depth(), 2);
    assert!(t3.verify(&Action::new("tool:search", "q=deep")).is_ok());
    assert!(t3.verify(&Action::new("tool:email", "")).is_err());
}

#[test]
fn tests_cbor_round_trip() {
    let (_anchor, agent, vc) = setup();
    let scope = Scope::with_budget_and_depth(vec!["tool:search".into()], Some(100), 2);
    let token = DelegationToken::mint(&vc, scope, 300, &agent).unwrap();
    let restored = DelegationToken::from_wire(token.to_wire()).unwrap();
    assert_eq!(token.vc_id(), restored.vc_id());
    assert_eq!(token.depth(), restored.depth());
    assert!(restored.verify(&Action::new("tool:search", "q=ok")).is_ok());
}

#[test]
fn delegation_chain_audit_entries() {
    let (_anchor, agent, vc) = setup();
    let scope = Scope::with_budget_and_depth(vec!["tool:search".into()], Some(100), 2);
    let token = DelegationToken::mint(&vc, scope, 300, &agent).unwrap();
    let chain = token.chain();
    assert_eq!(chain.entries.len(), 1);
    assert_eq!(chain.entries[0].depth, 0);
    assert_eq!(chain.issuer_did, token.issuer_did());
}

#[test]
fn depth_limit_enforced() {
    let (_anchor, agent, vc) = setup();
    let scope = Scope::with_budget_and_depth(vec!["tool:search".into()], Some(100), 0);
    let token = DelegationToken::mint(&vc, scope, 300, &agent).unwrap();
    let sub = AgentIdentity::create(DidMethod::Key, None).unwrap();
    let narrow = Scope::with_budget_and_depth(vec!["tool:search".into()], Some(10), 0);
    assert!(matches!(
        token.attenuate(narrow, 60, &sub),
        Err(AgentCredsError::DelegationDepthExceeded { .. })
    ));
}

#[test]
fn scope_subset_logic() {
    let parent = Scope::with_budget_and_depth(vec!["a".into(), "b".into()], Some(100), 3);
    let child_ok = Scope::with_budget_and_depth(vec!["a".into()], Some(50), 2);
    let child_wide = Scope::with_budget_and_depth(vec!["a".into(), "c".into()], Some(50), 2);
    assert!(child_ok.is_subset_of(&parent));
    assert!(!child_wide.is_subset_of(&parent));
}

#[test]
fn expired_token_is_rejected() {
    let (_anchor, agent, vc) = setup();
    let scope = Scope::with_budget_and_depth(vec!["tool:search".into()], Some(100), 2);
    let token = DelegationToken::mint(&vc, scope, 300, &agent).unwrap();
    let token = with_hop(&token, |h| h.expires_at = at(now_unix() - 1)).unwrap();
    assert!(matches!(
        token.verify(&Action::new("tool:search", "")),
        Err(AgentCredsError::TokenExpired { .. })
    ));
}

#[test]
fn invalid_cbor_rejected() {
    assert!(DelegationToken::from_wire(DelegationTokenWire {
        biscuit: b"not valid cbor".to_vec(),
        hops: vec![],
    })
    .is_err());
}

#[test]
fn scope_budget_widening_rejected() {
    let parent = Scope::with_budget_and_depth(vec!["a".into()], Some(50), 3);
    let wider = Scope::with_budget_and_depth(vec!["a".into()], Some(100), 2);
    assert!(!wider.is_subset_of(&parent));
}

#[test]
fn chain_entries_have_correct_agent_dids() {
    let (_anchor, agent, vc) = setup();
    let sub = AgentIdentity::create(DidMethod::Key, None).unwrap();
    let scope = Scope::with_budget_and_depth(vec!["tool:search".into()], Some(100), 2);
    let token = DelegationToken::mint(&vc, scope, 300, &agent).unwrap();
    let narrow = Scope::with_budget_and_depth(vec!["tool:search".into()], Some(10), 1);
    let child = token.attenuate(narrow, 60, &sub).unwrap();
    let chain = child.chain();
    assert_eq!(chain.entries[0].agent_did, agent.did());
    assert_eq!(chain.entries[1].agent_did, sub.did());
    assert_eq!(chain.entries[0].depth, 0);
    assert_eq!(chain.entries[1].depth, 1);
}

#[test]
fn scope_new_constructor_defaults() {
    let scope = Scope::new(vec!["tool:x".into(), "tool:y".into()]);
    assert!(scope.tools.contains("tool:x"));
    assert_eq!(scope.budget_usd, None);
    assert_eq!(scope.max_depth, 0);
}

#[test]
fn action_new_sets_tool_and_parameters() {
    let action = Action::new("tool:search", "q=hello");
    assert_eq!(action.tool, "tool:search");
    assert_eq!(action.parameters, "q=hello");
}

#[test]
fn mint_from_expired_vc_fails() {
    let anchor = TrustAnchor::generate().unwrap();
    let agent = AgentIdentity::create(DidMethod::Key, None).unwrap();
    let claims = CapabilityClaims::new(vec!["tool:search".into()], 2, 3600);
    let mut vc = CapabilityCredential::issue(&anchor, agent.did(), claims, None).unwrap();
    vc.expiration_date = at(now_unix() - 1);
    let scope = Scope::new(vec!["tool:search".into()]);
    assert!(matches!(
        DelegationToken::mint(&vc, scope, 300, &agent),
        Err(AgentCredsError::CredentialExpired { .. })
    ));
}

#[test]
fn token_issuer_did_matches_vc_issuer() {
    let (_anchor, agent, vc) = setup();
    let scope = Scope::with_budget_and_depth(vec!["tool:search".into()], Some(100), 2);
    let token = DelegationToken::mint(&vc, scope, 300, &agent).unwrap();
    assert_eq!(token.issuer_did(), vc.issuer);
    assert_eq!(token.vc_id(), vc.id);
}

#[test]
fn mint_rejects_non_subject_agent() {
    let anchor = TrustAnchor::generate().unwrap();
    let subject = AgentIdentity::create(DidMethod::Key, None).unwrap();
    let other = AgentIdentity::create(DidMethod::Key, None).unwrap();
    let claims = CapabilityClaims::new(vec!["tool:search".into()], 2, 3600);
    let vc = CapabilityCredential::issue(&anchor, subject.did(), claims, None).unwrap();
    let scope = Scope::new(vec!["tool:search".into()]);
    assert!(DelegationToken::mint(&vc, scope, 300, &other).is_err());
}

#[test]
fn tampered_biscuit_bytes_rejected() {
    let (_anchor, agent, vc) = setup();
    let scope = Scope::with_budget_and_depth(vec!["tool:search".into()], Some(100), 2);
    let token = DelegationToken::mint(&vc, scope, 300, &agent).unwrap();
    let mut wire = token.to_wire();
    let mid = wire.biscuit.len() / 2;
    wire.biscuit[mid] ^= 0xFF;
    let verified = DelegationToken::from_wire(wire)
        .and_then(|t| t.verify(&Action::new("tool:search", "")));
    assert!(verified.is_err());
}

#[test]
fn forged_hop_attestation_rejected() {
    let (_anchor, agent, vc) = setup();
    let scope = Scope::with_budget_and_depth(vec!["tool:search".into()], Some(100), 2);
    let token = DelegationToken::mint(&vc, scope, 300, &agent).unwrap();
    let token = with_hop(&token, |h| h.attestation[0] ^= 0xFF).unwrap();
    assert!(token.verify(&Action::new("tool:search", "")).is_err());
}

#[test]
fn hop_did_substitution_rejected() {
    let (_anchor, agent, vc) = setup();
    let victim = AgentIdentity::create(DidMethod::Key, None).unwrap();
    let scope = Scope::with_budget_and_depth(vec!["tool:search".into()], Some(100), 2);
    let token = DelegationToken::mint(&vc, scope, 300, &agent).unwrap();
    let token = with_hop(&token, |h| h.agent_did = victim.did().to_string()).unwrap();
    assert!(token.verify(&Action::new("tool:search", "")).is_err());
}

#[test]
fn verify_rooted_accepts_legitimate_token() {
    let (anchor, agent, vc) = setup();
    let scope = Scope::with_budget_and_depth(vec!["tool:search".into()], Some(100), 2);
    let token = DelegationToken::mint(&vc, scope, 300, &agent).unwrap();
    assert!(token
        .verify_rooted(&Action::new("tool:search", "q=ok"), &vc, &anchor)
        .is_ok());
}

#[test]
fn verify_rooted_rejects_token_from_a_different_credential() {
    let (anchor, _agent, vc) = setup();

    let attacker_anchor = TrustAnchor::generate().unwrap();
    let attacker = AgentIdentity::create(DidMethod::Key, None).unwrap();
    let mut attacker_claims = CapabilityClaims::new(vec!["tool:admin".into()], 5, 3600);
    attacker_claims.budget_usd = Some(1_000_000);
    let attacker_vc =
        CapabilityCredential::issue(&attacker_anchor, attacker.did(), attacker_claims, None)
            .unwrap();
    let broad = Scope::with_budget_and_depth(vec!["tool:admin".into()], Some(1_000_000), 5);
    let attacker_token = DelegationToken::mint(&attacker_vc, broad, 300, &attacker).unwrap();

    assert!(attacker_token
        .verify(&Action::new("tool:admin", ""))
        .is_ok());
    assert!(attacker_token
        .verify_rooted(&Action::new("tool:admin", ""), &vc, &anchor)
        .is_err());
}

#[test]
fn verify_rooted_rejects_wrong_anchor() {
    let (_anchor, agent, vc) = setup();
    let scope = Scope::with_budget_and_depth(vec!["tool:search".into()], Some(100), 2);
    let token = DelegationToken::mint(&vc, scope, 300, &agent).unwrap();
    let wrong_anchor = TrustAnchor::generate().unwrap();
    assert!(token
        .verify_rooted(&Action::new("tool:search", "q=ok"), &vc, &wrong_anchor)
        .is_err());
}

#[test]
fn did_web_hop_requires_and_uses_a_resolver() {
    let anchor = TrustAnchor::generate().unwrap();
    let agent = AgentIdentity::create(
        DidMethod::Web {
            host: "example.com".into(),
            path: Some("agents/alice".into()),
        },
        None,
    )
    .unwrap();
    assert!(agent.did().starts_with("did:web:"));

    let claims = CapabilityClaims::new(vec!["tool:search".into()], 2, 3600);
    let vc = CapabilityCredential::issue(&anchor, agent.did(), claims, None).unwrap();
    let scope = Scope::with_budget_and_depth(vec!["tool:search".into()], None, 1);
    let token = DelegationToken::mint(&vc, scope, 300, &agent).unwrap();
    let action = Action::new("tool:search", "q=ok");

    assert!(matches!(
        token.verify(&action),
        Err(AgentCredsError::ResolverRequired { .. })
    ));

    let mut resolver = InMemoryResolver::new();
    resolver.register(agent.did().to_string(), agent.document().clone());
    assert!(token.verify_with_resolver(&action, &resolver).is_ok());
    assert!(token
        .verify_rooted_with_resolver(&action, &vc, &anchor, &resolver)
        .is_ok());

    let empty = InMemoryResolver::new();
    assert!(token.verify_with_resolver(&action, &empty).is_err());
    assert!(token
        .verify_rooted_with_resolver(&action, &vc, &anchor, &empty)
        .is_err());
}

fn setup_obo() -> (
    TrustAnchor,
    AgentIdentity,
    CapabilityCredential,
    HumanIdentity,
) {
    let anchor = TrustAnchor::generate().unwrap();
    let agent = AgentIdentity::create(DidMethod::Key, None).unwrap();
    let human = HumanIdentity {
        did: "did:web:login.acme.com:u:alice".into(),
    };
    let claims = CapabilityClaims {
        tools: vec!["tool:read_email".into(), "tool:search".into()],
        resources: None,
        budget_usd: Some(500),
        max_delegation_depth: 3,
        valid_for_secs: 3600,
        autonomy_level: 0,
        token_ttl_ceiling_secs: 3600,
        on_behalf_of: Some(HumanAuthorization {
            principal_did: human.did().to_string(),
            resource_authority: vec!["mailbox:alice@acme.com/*".into()],
        }),
        required_gates: Vec::new(),
    };
    let vc = CapabilityCredential::issue(&anchor, agent.did(), claims, None).unwrap();
    (anchor, agent, vc, human)
}

#[test]
fn obo_chain_verifies_without_tripping_the_run_limit() {
    let (anchor, agent, vc, human) = setup_obo();
    let scope = Scope::with_budget_and_depth(vec!["tool:read_email".into()], Some(100), 2)
        .with_resources(vec!["mailbox:alice@acme.com/42".into()]);
    let token = DelegationToken::mint(&vc, scope, 300, &agent).unwrap();
    let sub = AgentIdentity::create(DidMethod::Key, None).unwrap();
    let child = token
        .attenuate(
            Scope::with_budget_and_depth(vec!["tool:read_email".into()], Some(50), 1)
                .with_resources(vec!["mailbox:alice@acme.com/42".into()]),
            120,
            &sub,
        )
        .unwrap();
    let action = Action::new("tool:read_email", "id=42")
        .on_behalf_of(human.did())
        .on_resource("mailbox:alice@acme.com/42");
    for i in 0..16 {
        child
            .verify_rooted(&action, &vc, &anchor)
            .unwrap_or_else(|e| panic!("valid OBO chain must verify (iteration {i}): {e:?}"));
    }
}

#[test]
fn obo_token_requires_matching_acting_for() {
    let (_anchor, agent, vc, human) = setup_obo();
    let scope = Scope::with_budget_and_depth(vec!["tool:read_email".into()], Some(100), 2);
    let token = DelegationToken::mint(&vc, scope, 300, &agent).unwrap();
    assert_eq!(token.principal_did(), Some(human.did()));

    match token.verify(&Action::new("tool:read_email", "")) {
        Err(AgentCredsError::ActingForMismatch { required, asserted }) => {
            assert_eq!(required, human.did());
            assert_eq!(asserted, None);
        }
        other => panic!("expected ActingForMismatch, got {other:?}"),
    }
    match token.verify(&Action::new("tool:read_email", "").on_behalf_of("did:web:evil.example")) {
        Err(AgentCredsError::ActingForMismatch { required, asserted }) => {
            assert_eq!(required, human.did());
            assert_eq!(asserted.as_deref(), Some("did:web:evil.example"));
        }
        other => panic!("expected ActingForMismatch, got {other:?}"),
    }
    assert!(token
        .verify(&Action::new("tool:read_email", "").on_behalf_of(human.did()))
        .is_ok());
}

#[test]
fn verify_rooted_blames_the_request_not_the_token_when_acting_for_is_absent() {
    let (anchor, agent, vc, human) = setup_obo();
    let scope = Scope::with_budget_and_depth(vec!["tool:read_email".into()], Some(100), 2);
    let token = DelegationToken::mint(&vc, scope, 300, &agent).unwrap();

    let action = Action::new("tool:read_email", "id=42");
    let err = token
        .verify_rooted(&action, &vc, &anchor)
        .expect_err("a token bound to a principal must not verify for an unbound request");

    match &err {
        AgentCredsError::ActingForMismatch { required, asserted } => {
            assert_eq!(required, human.did());
            assert_eq!(*asserted, None);
        }
        other => panic!("expected ActingForMismatch, got {other:?}"),
    }

    assert_eq!(token.principal_did(), Some(human.did()));

    let msg = err.to_string();
    assert!(
        msg.contains("the request asserts principal '<none>'"),
        "message must blame the request, got: {msg}"
    );
    assert!(
        msg.contains(&format!("token is bound to '{}'", human.did())),
        "message must report the token as bound, got: {msg}"
    );

    assert!(token
        .verify_rooted(&action.clone().on_behalf_of(human.did()), &vc, &anchor)
        .is_ok());
}

#[test]
fn a_foreign_credential_is_refused_at_linkage_before_the_principal_check() {
    let (anchor, agent, vc, human) = setup_obo();
    let scope = Scope::with_budget_and_depth(vec!["tool:read_email".into()], Some(100), 2);
    let token = DelegationToken::mint(&vc, scope, 300, &agent).unwrap();

    let mut plain = CapabilityClaims::new(vec!["tool:read_email".into()], 2, 3600);
    plain.budget_usd = Some(100);
    let other_vc = CapabilityCredential::issue(&anchor, agent.did(), plain, None).unwrap();
    assert_ne!(other_vc.id, vc.id, "ids are derived, so these must differ");

    let action = Action::new("tool:read_email", "").on_behalf_of(human.did());
    match token.verify_rooted(&action, &other_vc, &anchor) {
        Err(AgentCredsError::InvalidBiscuitSignature { reason }) => {
            assert!(
                reason.contains("vc_id"),
                "must fail at credential linkage, got: {reason}"
            );
        }
        other => panic!("expected the linkage check to fire first, got {other:?}"),
    }
}

#[test]
fn mint_refuses_a_scope_wider_than_the_credential() {
    let (anchor, agent, vc) = setup();

    let extra_tool = Scope::with_budget_and_depth(
        vec!["tool:search".into(), "tool:admin".into()],
        Some(100),
        1,
    );
    match DelegationToken::mint(&vc, extra_tool, 300, &agent) {
        Err(AgentCredsError::ScopeWideningAttempt { capability }) => {
            assert_eq!(
                capability, "tool:admin",
                "the widening capability must be named"
            );
        }
        other => panic!("mint accepted a tool the credential never granted: {other:?}"),
    }

    let extra_budget = Scope::with_budget_and_depth(vec!["tool:search".into()], Some(100_000), 1);
    assert!(
        matches!(
            DelegationToken::mint(&vc, extra_budget, 300, &agent),
            Err(AgentCredsError::ScopeWideningAttempt { .. })
        ),
        "mint accepted a budget above the credential's ceiling"
    );

    let extra_depth = Scope::with_budget_and_depth(vec!["tool:search".into()], Some(100), 9);
    assert!(
        matches!(
            DelegationToken::mint(&vc, extra_depth, 300, &agent),
            Err(AgentCredsError::ScopeWideningAttempt { .. })
        ),
        "mint accepted a delegation depth above the credential's ceiling"
    );

    let within = Scope::with_budget_and_depth(vec!["tool:search".into()], Some(100), 1);
    DelegationToken::mint(&vc, within, 300, &agent).expect("a scope within the grant must mint");
    let _ = &anchor;
}

#[test]
fn principal_cannot_change_across_hops() {
    let (_anchor, agent, vc, human) = setup_obo();
    let scope = Scope::with_budget_and_depth(
        vec!["tool:read_email".into(), "tool:search".into()],
        Some(100),
        3,
    );
    let token = DelegationToken::mint(&vc, scope, 300, &agent).unwrap();

    let sub = AgentIdentity::create(DidMethod::Key, None).unwrap();
    let narrow = Scope::with_budget_and_depth(vec!["tool:search".into()], Some(50), 2);
    let child = token.attenuate(narrow, 60, &sub).unwrap();

    assert_eq!(child.principal_did(), Some(human.did()));
    assert!(child
        .verify(&Action::new("tool:search", "").on_behalf_of(human.did()))
        .is_ok());
    assert!(matches!(
        child.verify(&Action::new("tool:search", "").on_behalf_of("did:web:bob.example")),
        Err(AgentCredsError::ActingForMismatch { .. })
    ));
}

#[test]
fn verify_rooted_accepts_matching_principal() {
    let (anchor, agent, vc, human) = setup_obo();
    let scope = Scope::with_budget_and_depth(vec!["tool:read_email".into()], Some(100), 2);
    let token = DelegationToken::mint(&vc, scope, 300, &agent).unwrap();
    let action = Action::new("tool:read_email", "").on_behalf_of(human.did());
    assert!(token.verify_rooted(&action, &vc, &anchor).is_ok());
}

fn gated_token() -> (
    TrustAnchor,
    CapabilityCredential,
    HumanIdentity,
    DelegationToken,
) {
    let (anchor, agent, vc, human) = setup_obo();
    let scope = Scope::with_budget_and_depth(vec!["tool:read_email".into()], Some(100), 2)
        .with_resources(vec!["mailbox:alice@acme.com/42".into()])
        .require_approval("tool:read_email");
    let token = DelegationToken::mint(&vc, scope, 300, &agent).unwrap();
    (anchor, vc, human, token)
}

fn gated_action(human: &HumanIdentity) -> Action {
    Action::new("tool:read_email", "id=42")
        .on_behalf_of(human.did())
        .on_resource("mailbox:alice@acme.com/42")
}

#[test]
fn r10_gate_travels_and_denies_without_evidence() {
    let (anchor, vc, human, token) = gated_token();
    assert!(token.gates().contains(&Gate::approval("tool:read_email")));
    assert_eq!(token.required_gates(&gated_action(&human)).len(), 1);
    let now = now_unix();
    let denied = token.verify_rooted_gated(
        &gated_action(&human),
        &vc,
        &anchor,
        &[],
        &[Gate::APPROVAL],
        now,
    );
    assert!(matches!(denied, Err(AgentCredsError::ActionDenied { .. })));
}

#[test]
fn r10_principal_bound_evidence_satisfies_the_gate() {
    let (anchor, vc, human, token) = gated_token();
    let action = gated_action(&human);
    let now = now_unix();
    let ev =
        ApprovalEvidence::approve(&action, "operator:carol", "appr-1", now + 300, &anchor).unwrap();
    let relied = token
        .verify_rooted_gated(
            &action,
            &vc,
            &anchor,
            std::slice::from_ref(&ev),
            &[Gate::APPROVAL],
            now,
        )
        .unwrap();
    assert_eq!(relied, vec!["appr-1".to_string()]);
}

#[test]
fn r10_evidence_bound_to_a_different_principal_is_rejected() {
    let (anchor, vc, human, token) = gated_token();
    let action = gated_action(&human);
    let now = now_unix();
    let other = Action::new("tool:read_email", "id=42")
        .on_behalf_of("did:key:zSomeoneElse")
        .on_resource("mailbox:alice@acme.com/42");
    let ev =
        ApprovalEvidence::approve(&other, "operator:carol", "appr-2", now + 300, &anchor).unwrap();
    let denied = token.verify_rooted_gated(&action, &vc, &anchor, &[ev], &[Gate::APPROVAL], now);
    assert!(matches!(denied, Err(AgentCredsError::ActionDenied { .. })));
}

#[test]
fn r10_unrecognized_gate_kind_fails_closed() {
    let (anchor, agent, vc, human) = setup_obo();
    let scope = Scope::with_budget_and_depth(vec!["tool:read_email".into()], Some(100), 2)
        .with_resources(vec!["mailbox:alice@acme.com/42".into()])
        .with_gates(vec![Gate {
            kind: "biometric".into(),
            tool: "tool:read_email".into(),
        }]);
    let token = DelegationToken::mint(&vc, scope, 300, &agent).unwrap();
    let now = now_unix();
    let denied = token.verify_rooted_gated(
        &gated_action(&human),
        &vc,
        &anchor,
        &[],
        &[Gate::APPROVAL],
        now,
    );
    assert!(matches!(denied, Err(AgentCredsError::ActionDenied { .. })));
}

#[test]
fn r10_gate_is_monotone_child_cannot_remove() {
    let (anchor, vc, human, token) = gated_token();
    let child_agent = AgentIdentity::create(DidMethod::Key, None).unwrap();
    let narrow = Scope::with_budget_and_depth(vec!["tool:read_email".into()], Some(50), 1)
        .with_resources(vec!["mailbox:alice@acme.com/42".into()]);
    let child = token.attenuate(narrow, 200, &child_agent).unwrap();
    assert!(child.gates().contains(&Gate::approval("tool:read_email")));
    let now = now_unix();
    let denied = child.verify_rooted_gated(
        &gated_action(&human),
        &vc,
        &anchor,
        &[],
        &[Gate::APPROVAL],
        now,
    );
    assert!(matches!(denied, Err(AgentCredsError::ActionDenied { .. })));
}

#[test]
fn r10_expired_and_tampered_evidence_rejected() {
    let (anchor, vc, human, token) = gated_token();
    let action = gated_action(&human);
    let now = now_unix();
    let expired = ApprovalEvidence::approve(&action, "op", "e1", now - 1, &anchor).unwrap();
    assert!(token
        .verify_rooted_gated(&action, &vc, &anchor, &[expired], &[Gate::APPROVAL], now)
        .is_err());
    let mut bad = ApprovalEvidence::approve(&action, "op", "e2", now + 300, &anchor).unwrap();
    bad.signature = "00".repeat(bad.signature.len() / 2);
    assert!(token
        .verify_rooted_gated(&action, &vc, &anchor, &[bad], &[Gate::APPROVAL], now)
        .is_err());
}

#[test]
fn r10_evidence_is_one_time() {
    let (anchor, vc, human, token) = gated_token();
    let action = gated_action(&human);
    let now = now_unix();
    let ev = ApprovalEvidence::approve(&action, "op", "once-1", now + 300, &anchor).unwrap();
    let mut consumed = ConsumedApprovals::new();

    let ids = token
        .verify_rooted_gated(
            &action,
            &vc,
            &anchor,
            std::slice::from_ref(&ev),
            &[Gate::APPROVAL],
            now,
        )
        .unwrap();
    assert!(ids.iter().all(|id| consumed.try_consume(id)));

    let ids2 = token
        .verify_rooted_gated(
            &action,
            &vc,
            &anchor,
            std::slice::from_ref(&ev),
            &[Gate::APPROVAL],
            now,
        )
        .unwrap();
    assert!(
        ids2.iter().all(|id| !consumed.try_consume(id)),
        "re-used evidence must not consume again"
    );
}

#[test]
fn r10_credential_mandated_gate_is_enforced_even_if_token_omits_it() {
    let anchor = TrustAnchor::generate().unwrap();
    let agent = AgentIdentity::create(DidMethod::Key, None).unwrap();
    let claims = CapabilityClaims::new(vec!["tool:read_email".into()], 2, 3600)
        .require_approval("tool:read_email");
    let vc = CapabilityCredential::issue(&anchor, agent.did(), claims, None).unwrap();
    let scope = Scope::with_budget_and_depth(vec!["tool:read_email".into()], Some(100), 2);
    let token = DelegationToken::mint(&vc, scope, 300, &agent).unwrap();
    let action = Action::new("tool:read_email", "id=1");
    let now = now_unix();

    assert!(matches!(
        token.verify_rooted_gated(&action, &vc, &anchor, &[], &[Gate::APPROVAL], now),
        Err(AgentCredsError::ActionDenied { .. })
    ));
    let ev = ApprovalEvidence::approve(&action, "op", "m1", now + 300, &anchor).unwrap();
    assert!(token
        .verify_rooted_gated(
            &action,
            &vc,
            &anchor,
            std::slice::from_ref(&ev),
            &[Gate::APPROVAL],
            now
        )
        .is_ok());
    assert!(token.gates().contains(&Gate::approval("tool:read_email")));
}

fn approver_dir(
    anchor: &TrustAnchor,
    approver: &AgentIdentity,
    roles: Vec<&str>,
) -> ApproverDirectory {
    let entry = ApproverEntry {
        approver_id: "operator:carol".into(),
        approver_did: approver.did().to_string(),
        roles: roles.into_iter().map(String::from).collect(),
        not_after: None,
    };
    ApproverDirectory::seal(vec![entry], 1, at(now_unix()), None, anchor).unwrap()
}

fn approval_key_token(
    anchor: &TrustAnchor,
    agent: &AgentIdentity,
    vc: &CapabilityCredential,
) -> DelegationToken {
    let scope = Scope::with_budget_and_depth(vec!["tool:read_email".into()], Some(100), 2)
        .with_resources(vec!["mailbox:alice@acme.com/42".into()])
        .with_gates(vec![Gate::approval_key("tool:read_email")]);
    let _ = anchor;
    DelegationToken::mint(vc, scope, 300, agent).unwrap()
}

#[test]
fn r10_approver_key_evidence_satisfies_gate() {
    let (anchor, agent, vc, human) = setup_obo();
    let token = approval_key_token(&anchor, &agent, &vc);
    let action = gated_action(&human);
    let now = now_unix();

    let approver = AgentIdentity::create(DidMethod::Key, None).unwrap();
    let dir = approver_dir(&anchor, &approver, vec!["finance"]);
    let ev =
        ApprovalEvidence::approve_by_key(&action, "operator:carol", &approver, "ak-1", now + 300)
            .unwrap();

    let relied = token
        .verify_rooted_gated_with_directory(
            &action,
            &vc,
            &anchor,
            std::slice::from_ref(&ev),
            Some(&dir),
            &[Gate::APPROVAL_KEY],
            now,
        )
        .unwrap();
    assert_eq!(relied, vec!["ak-1".to_string()]);
}

#[test]
fn r10_approver_key_from_non_enrolled_approver_is_rejected() {
    let (anchor, agent, vc, human) = setup_obo();
    let token = approval_key_token(&anchor, &agent, &vc);
    let action = gated_action(&human);
    let now = now_unix();

    let enrolled = AgentIdentity::create(DidMethod::Key, None).unwrap();
    let dir = approver_dir(&anchor, &enrolled, vec![]);
    let rogue = AgentIdentity::create(DidMethod::Key, None).unwrap();
    let ev =
        ApprovalEvidence::approve_by_key(&action, "operator:mallory", &rogue, "ak-x", now + 300)
            .unwrap();

    assert!(matches!(
        token.verify_rooted_gated_with_directory(
            &action,
            &vc,
            &anchor,
            &[ev],
            Some(&dir),
            &[Gate::APPROVAL_KEY],
            now
        ),
        Err(AgentCredsError::ActionDenied { .. })
    ));
}

#[test]
fn r10_approver_key_gate_requires_a_directory() {
    let (anchor, agent, vc, human) = setup_obo();
    let token = approval_key_token(&anchor, &agent, &vc);
    let action = gated_action(&human);
    let now = now_unix();
    let approver = AgentIdentity::create(DidMethod::Key, None).unwrap();
    let ev = ApprovalEvidence::approve_by_key(&action, "op", &approver, "ak", now + 300).unwrap();
    assert!(matches!(
        token.verify_rooted_gated_with_directory(
            &action,
            &vc,
            &anchor,
            &[ev],
            None,
            &[Gate::APPROVAL_KEY],
            now
        ),
        Err(AgentCredsError::ActionDenied { .. })
    ));
}

#[test]
fn r10_approver_directory_tamper_and_expiry_rejected() {
    let (anchor, _agent, _vc, human) = setup_obo();
    let approver = AgentIdentity::create(DidMethod::Key, None).unwrap();
    let action = gated_action(&human);
    let now = now_unix();
    let ev = ApprovalEvidence::approve_by_key(&action, "op", &approver, "ak", now + 300).unwrap();

    let mut dir = approver_dir(&anchor, &approver, vec![]);
    dir.signature = "00".repeat(dir.signature.len() / 2);
    assert!(ev
        .verify_with_directory(&action, &dir, &anchor, now, None)
        .is_err());

    let dir2 = ApproverDirectory::seal(
        vec![ApproverEntry {
            approver_id: "op".into(),
            approver_did: approver.did().to_string(),
            roles: vec![],
            not_after: None,
        }],
        1,
        at(now_unix()),
        Some(at(now_unix() - 10)),
        &anchor,
    )
    .unwrap();
    assert!(ev
        .verify_with_directory(&action, &dir2, &anchor, now, None)
        .is_err());
}

#[test]
fn r10_approver_key_role_requirement_enforced() {
    let (anchor, _agent, _vc, human) = setup_obo();
    let approver = AgentIdentity::create(DidMethod::Key, None).unwrap();
    let dir = approver_dir(&anchor, &approver, vec!["ops"]);
    let action = gated_action(&human);
    let now = now_unix();
    let ev = ApprovalEvidence::approve_by_key(&action, "op", &approver, "ak", now + 300).unwrap();
    assert!(ev
        .verify_with_directory(&action, &dir, &anchor, now, Some("finance"))
        .is_err());
    assert!(ev
        .verify_with_directory(&action, &dir, &anchor, now, Some("ops"))
        .is_ok());
}

#[test]
fn r10_anchor_mode_still_works_via_directory_method() {
    let (anchor, vc, human, token) = gated_token();
    let action = gated_action(&human);
    let now = now_unix();
    let ev = ApprovalEvidence::approve(&action, "operator", "a1", now + 300, &anchor).unwrap();
    let relied = token
        .verify_rooted_gated_with_directory(
            &action,
            &vc,
            &anchor,
            std::slice::from_ref(&ev),
            None,
            &[Gate::APPROVAL],
            now,
        )
        .unwrap();
    assert_eq!(relied, vec!["a1".to_string()]);
}

#[test]
fn r10_ungated_tool_needs_no_evidence() {
    let (anchor, agent, vc, human) = setup_obo();
    let scope = Scope::with_budget_and_depth(
        vec!["tool:read_email".into(), "tool:search".into()],
        Some(100),
        2,
    )
    .with_resources(vec!["mailbox:alice@acme.com/42".into()])
    .require_approval("tool:read_email");
    let token = DelegationToken::mint(&vc, scope, 300, &agent).unwrap();
    let action = Action::new("tool:search", "q=ok")
        .on_behalf_of(human.did())
        .on_resource("mailbox:alice@acme.com/42");
    let now = now_unix();
    assert!(token
        .verify_rooted_gated(&action, &vc, &anchor, &[], &[Gate::APPROVAL], now)
        .is_ok());
}

#[test]
fn resource_scope_is_enforced() {
    let (_anchor, agent, vc, human) = setup_obo();
    let scope = Scope::with_budget_and_depth(vec!["tool:read_email".into()], Some(100), 2)
        .with_resources(vec![
            "mailbox:alice@acme.com/a".into(),
            "mailbox:alice@acme.com/b".into(),
        ]);
    let token = DelegationToken::mint(&vc, scope, 300, &agent).unwrap();
    let p = human.did();

    assert!(token
        .verify(
            &Action::new("tool:read_email", "")
                .on_behalf_of(p)
                .on_resource("mailbox:alice@acme.com/a")
        )
        .is_ok());
    assert!(matches!(
        token.verify(
            &Action::new("tool:read_email", "")
                .on_behalf_of(p)
                .on_resource("mailbox:alice@acme.com/c")
        ),
        Err(AgentCredsError::ActionDenied { .. })
    ));
    assert!(matches!(
        token.verify(&Action::new("tool:read_email", "").on_behalf_of(p)),
        Err(AgentCredsError::ActionDenied { .. })
    ));
}

#[test]
fn resource_scope_narrows_on_attenuate() {
    let (_anchor, agent, vc, human) = setup_obo();
    let scope = Scope::with_budget_and_depth(vec!["tool:read_email".into()], Some(100), 2)
        .with_resources(vec![
            "mailbox:alice@acme.com/a".into(),
            "mailbox:alice@acme.com/b".into(),
        ]);
    let token = DelegationToken::mint(&vc, scope, 300, &agent).unwrap();

    let sub = AgentIdentity::create(DidMethod::Key, None).unwrap();
    let narrow = Scope::with_budget_and_depth(vec!["tool:read_email".into()], Some(50), 1)
        .with_resources(vec!["mailbox:alice@acme.com/a".into()]);
    let child = token.attenuate(narrow, 60, &sub).unwrap();
    let p = human.did();

    assert!(child
        .verify(
            &Action::new("tool:read_email", "")
                .on_behalf_of(p)
                .on_resource("mailbox:alice@acme.com/a")
        )
        .is_ok());
    assert!(matches!(
        child.verify(
            &Action::new("tool:read_email", "")
                .on_behalf_of(p)
                .on_resource("mailbox:alice@acme.com/b")
        ),
        Err(AgentCredsError::ActionDenied { .. })
    ));
}

#[test]
fn resource_widening_via_child_block_has_no_effect() {
    let (_anchor, agent, vc, human) = setup_obo();
    let scope = Scope::with_budget_and_depth(vec!["tool:read_email".into()], Some(100), 2)
        .with_resources(vec!["mailbox:alice@acme.com/a".into()]);
    let token = DelegationToken::mint(&vc, scope, 300, &agent).unwrap();

    let sub = AgentIdentity::create(DidMethod::Key, None).unwrap();
    let narrow = Scope::with_budget_and_depth(vec!["tool:read_email".into()], Some(50), 1)
        .with_resources(vec![
            "mailbox:alice@acme.com/a".into(),
            "mailbox:alice@acme.com/b".into(),
        ]);
    let child = token.attenuate(narrow, 60, &sub).unwrap();
    let p = human.did();

    assert!(child
        .verify(
            &Action::new("tool:read_email", "")
                .on_behalf_of(p)
                .on_resource("mailbox:alice@acme.com/a")
        )
        .is_ok());
    assert!(matches!(
        child.verify(
            &Action::new("tool:read_email", "")
                .on_behalf_of(p)
                .on_resource("mailbox:alice@acme.com/b")
        ),
        Err(AgentCredsError::ActionDenied { .. })
    ));
}

#[test]
fn mint_rejects_resource_outside_principal_authority() {
    let (_anchor, agent, vc, _human) = setup_obo();
    let scope = Scope::with_budget_and_depth(vec!["tool:read_email".into()], Some(100), 2)
        .with_resources(vec!["mailbox:bob@acme.com/x".into()]);
    assert!(matches!(
        DelegationToken::mint(&vc, scope, 300, &agent),
        Err(AgentCredsError::ConsentViolation { .. })
    ));
}

#[test]
fn chain_audit_includes_principal_and_resources() {
    let (_anchor, agent, vc, human) = setup_obo();
    let scope = Scope::with_budget_and_depth(vec!["tool:read_email".into()], Some(100), 2)
        .with_resources(vec!["mailbox:alice@acme.com/a".into()]);
    let token = DelegationToken::mint(&vc, scope, 300, &agent).unwrap();
    let chain = token.chain();
    assert_eq!(chain.principal_did.as_deref(), Some(human.did()));
    assert!(chain.entries[0]
        .resources
        .contains(&"mailbox:alice@acme.com/a".to_string()));
}

#[test]
fn non_obo_token_needs_no_principal() {
    let (_anchor, agent, vc) = setup();
    let scope = Scope::with_budget_and_depth(vec!["tool:search".into()], Some(100), 2);
    let token = DelegationToken::mint(&vc, scope, 300, &agent).unwrap();
    assert_eq!(token.principal_did(), None);
    assert!(token.verify(&Action::new("tool:search", "q=ok")).is_ok());
}

#[test]
fn datalog_injection_in_tool_is_rejected() {
    let (_anchor, agent, vc) = setup();
    let scope = Scope::new(vec!["tool:\"; allow if true; //".into()]);
    assert!(DelegationToken::mint(&vc, scope, 300, &agent).is_err());
}

#[test]
fn malformed_delegation_key_material_is_refused() {
    // Only wrong lengths are refusable: any 32 bytes are an Ed25519 secret.
    for bad in [vec![0u8; 5], vec![0u8; 31], vec![0u8; 33]] {
        assert!(
            matches!(
                check_delegation_secret(&bad),
                Err(AgentCredsError::InvalidKeyMaterial { .. })
            ),
            "secret of {} bytes must be refused as key material",
            bad.len()
        );
    }
    assert!(check_delegation_secret(&[7u8; 32]).is_ok());
    for bad in [vec![0u8; 5], vec![0u8; 31]] {
        assert!(
            matches!(
                check_delegation_key(&bad),
                Err(AgentCredsError::InvalidKeyMaterial { .. })
            ),
            "public key of {} bytes must be refused",
            bad.len()
        );
    }
    let token = small_token(1, 0);
    for bad in [vec![0u8; 5], vec![0u8; 31]] {
        assert!(
            matches!(
                with_hop(&token, |h| h.delegation_public = bad.clone()),
                Err(AgentCredsError::InvalidKeyMaterial { .. })
            ),
            "public key of {} bytes must be refused",
            bad.len()
        );
    }
}

#[test]
fn datalog_terms_reject_quote_breakout_characters() {
    for bad in ["a\"b", "a\\b", "a\nb", "a\rb", "a\0b"] {
        assert!(
            matches!(
                datalog_str(bad),
                Err(AgentCredsError::OutOfBounds { field: "scope", .. })
            ),
            "{bad:?} must not be accepted as a Datalog term"
        );
    }
    assert_eq!(datalog_str("tool:search").unwrap(), "\"tool:search\"");
}

#[test]
fn a_chain_deeper_than_the_credential_allows_is_refused() {
    let (anchor, agent, vc) = setup();
    let mut cur = DelegationToken::mint(
        &vc,
        Scope::with_budget_and_depth(vec!["tool:search".into()], Some(100), 3),
        300,
        &agent,
    )
    .unwrap();

    for hop in 0..3 {
        let child = AgentIdentity::create(DidMethod::Key, None).unwrap();
        cur = cur
            .attenuate(
                Scope::with_budget_and_depth(vec!["tool:search".into()], Some(50), 0),
                300,
                &child,
            )
            .unwrap_or_else(|e| panic!("hop {hop} is within the ceiling but failed: {e:?}"));
    }
    assert!(cur
        .verify_rooted(&Action::new("tool:search", ""), &vc, &anchor)
        .is_ok());

    let child = AgentIdentity::create(DidMethod::Key, None).unwrap();
    match cur.attenuate(
        Scope::with_budget_and_depth(vec!["tool:search".into()], Some(50), 0),
        300,
        &child,
    ) {
        Err(AgentCredsError::DelegationDepthExceeded { depth, max }) => {
            assert_eq!((depth, max), (4, 3), "the error must show the breach");
        }
        other => panic!("a fourth hop must be refused: {other:?}"),
    }
}

#[test]
fn a_token_is_refused_against_a_credential_it_was_not_minted_from() {
    let (anchor_a, agent_a, vc_a) = setup();
    let (_anchor_b, _agent_b, vc_b) = setup();

    let token = DelegationToken::mint(
        &vc_a,
        Scope::with_budget_and_depth(vec!["tool:search".into()], Some(100), 1),
        300,
        &agent_a,
    )
    .unwrap();

    assert!(
        token
            .verify_rooted(&Action::new("tool:search", ""), &vc_b, &anchor_a)
            .is_err(),
        "a token must not verify against a credential it was not derived from"
    );
}

#[test]
fn an_action_naming_a_different_principal_is_refused() {
    let (anchor, agent, vc, human) = setup_obo();
    let token = DelegationToken::mint(
        &vc,
        Scope::with_budget_and_depth(vec!["tool:search".into()], Some(50), 1),
        300,
        &agent,
    )
    .unwrap();
    assert_eq!(token.principal_did(), Some(human.did()));

    let wrong = Action::new("tool:search", "").on_behalf_of("did:key:zSomeoneElse");
    match token.verify_rooted(&wrong, &vc, &anchor) {
        Err(AgentCredsError::ActingForMismatch { required, asserted }) => {
            assert_eq!(required, human.did(), "required = the credential's human");
            assert_eq!(
                asserted.as_deref(),
                Some("did:key:zSomeoneElse"),
                "asserted = what the request claimed"
            );
        }
        other => panic!("an action naming another principal must be refused: {other:?}"),
    }
}

#[test]
fn a_resource_outside_the_humans_consent_is_refused() {
    let (anchor, agent, vc, human) = setup_obo();
    let scope = Scope::with_budget_and_depth(vec!["tool:search".into()], Some(50), 1)
        .with_resources(vec!["mailbox:bob@acme.com/inbox".into()]);

    let Ok(token) = DelegationToken::mint(&vc, scope, 300, &agent) else {
        return;
    };
    let action = Action::new("tool:search", "")
        .on_resource("mailbox:bob@acme.com/inbox")
        .on_behalf_of(human.did());
    match token.verify_rooted(&action, &vc, &anchor) {
        Err(AgentCredsError::ConsentViolation { capability }) => {
            assert!(
                capability.contains("bob"),
                "the error must name the unconsented resource: {capability}"
            );
        }
        other => panic!("an unconsented resource must be refused: {other:?}"),
    }
}

#[test]
fn a_corrupt_token_is_refused_at_decode_or_verify() {
    let (anchor, agent, vc) = setup();
    let token = DelegationToken::mint(
        &vc,
        Scope::with_budget_and_depth(vec!["tool:search".into()], Some(100), 1),
        300,
        &agent,
    )
    .unwrap();
    let mut wire = token.to_wire();

    let idx = wire.biscuit.len() / 2;
    wire.biscuit[idx] ^= 0xff;

    match DelegationToken::from_wire(wire) {
        Err(_) => {}
        Ok(t) => assert!(
            t.verify_rooted(&Action::new("tool:search", ""), &vc, &anchor)
                .is_err(),
            "a token whose bytes were altered must not verify"
        ),
    }
}

#[test]
fn as_of_verification_uses_the_instant_it_is_given() {
    let (anchor, agent, vc) = setup();
    let action = Action::new("tool:search", "");
    let token = DelegationToken::mint(
        &vc,
        Scope::with_budget_and_depth(vec!["tool:search".into()], Some(100), 1),
        300,
        &agent,
    )
    .unwrap();

    let secs = now_unix();
    let now = at(secs);
    assert!(token.verify_rooted_at(&action, &vc, &anchor, now).is_ok());
    assert!(token.verify_rooted(&action, &vc, &anchor).is_ok());
    assert!(token.verify_at(&action, now).is_ok());

    assert!(
        token
            .verify_rooted_at(&action, &vc, &anchor, at(secs + 7200))
            .is_err(),
        "an instant past the token's expiry must be refused"
    );
    assert!(
        token
            .verify_rooted_at(&action, &vc, &anchor, at(secs - 86_400))
            .is_ok(),
        "documents today's behaviour: expiry is bounded above only"
    );
    assert!(vc.is_valid_at(now));
    assert!(!vc.is_valid_at(at(secs + 315_360_000)));
    assert!(vc
        .verify_at(&anchor, true, at(secs + 315_360_000))
        .is_err());
}

#[test]
fn a_recognized_but_unhandled_gate_kind_fails_closed() {
    let (anchor, agent, vc, human) = setup_obo();
    let scope = Scope::with_budget_and_depth(vec!["tool:read_email".into()], Some(100), 2)
        .with_resources(vec!["mailbox:alice@acme.com/42".into()])
        .with_gates(vec![Gate::intent("tool:read_email")]);
    let token = DelegationToken::mint(&vc, scope, 300, &agent).unwrap();
    let action = gated_action(&human);
    let now = now_unix();

    let out = token.verify_rooted_gated(
        &action,
        &vc,
        &anchor,
        &[],
        &[Gate::APPROVAL, Gate::INTENT],
        now,
    );
    assert!(
        matches!(out, Err(AgentCredsError::ActionDenied { .. })),
        "a recognized gate with no handler and no evidence must DENY; passing it silently is a designation that appears enforced and is not"
    );
}

#[test]
fn a_per_action_cost_is_enforced_against_the_cap() {
    let (_a, agent, vc) = setup();
    let scope = Scope::with_budget_and_depth(vec!["tool:search".into()], Some(500), 2)
        .with_max_action_cost(100);
    let token = DelegationToken::mint(&vc, scope, 300, &agent).unwrap();

    token
        .verify(&Action::new("tool:search", "q").with_cost(100))
        .expect("a cost exactly at the cap must pass");
    token
        .verify(&Action::new("tool:search", "q").with_cost(1))
        .expect("a cost under the cap must pass");
    assert!(
        token
            .verify(&Action::new("tool:search", "q").with_cost(101))
            .is_err(),
        "a cost over the cap must be refused"
    );
}

#[test]
fn a_capped_token_denies_an_unpriced_action() {
    let (_a, agent, vc) = setup();
    let scope = Scope::with_budget_and_depth(vec!["tool:search".into()], Some(500), 2)
        .with_max_action_cost(100);
    let token = DelegationToken::mint(&vc, scope, 300, &agent).unwrap();
    assert!(
        token.verify(&Action::new("tool:search", "q")).is_err(),
        "omitting the cost must not bypass the cap"
    );
}

#[test]
fn an_uncapped_token_is_unaffected_by_cost() {
    let (_a, agent, vc) = setup();
    let scope = Scope::with_budget_and_depth(vec!["tool:search".into()], Some(500), 2);
    let token = DelegationToken::mint(&vc, scope, 300, &agent).unwrap();
    token
        .verify(&Action::new("tool:search", "q"))
        .expect("unpriced still passes without a cap");
    token
        .verify(&Action::new("tool:search", "q").with_cost(999_999))
        .expect("a price is ignored when nothing caps it");
}

#[test]
fn attenuation_can_tighten_the_cap_but_not_loosen_it() {
    let (_a, agent, vc) = setup();
    let sub = AgentIdentity::create(DidMethod::Key, None).unwrap();
    let scope = Scope::with_budget_and_depth(vec!["tool:search".into()], Some(500), 2)
        .with_max_action_cost(100);
    let token = DelegationToken::mint(&vc, scope, 300, &agent).unwrap();

    let tighter = Scope::with_budget_and_depth(vec!["tool:search".into()], Some(500), 1)
        .with_max_action_cost(50);
    let child = token.attenuate(tighter, 300, &sub).unwrap();
    child
        .verify(&Action::new("tool:search", "q").with_cost(50))
        .expect("at the child's tighter cap");
    assert!(
        child
            .verify(&Action::new("tool:search", "q").with_cost(75))
            .is_err(),
        "the child's tighter cap must bind even though the parent allowed 100"
    );

    let looser = Scope::with_budget_and_depth(vec!["tool:search".into()], Some(500), 1)
        .with_max_action_cost(400);
    assert!(
        token.attenuate(looser, 300, &sub).is_err(),
        "raising the cap is widening and must be refused"
    );
}

#[test]
fn a_sub_delegate_cannot_drop_the_cap_by_omitting_it() {
    let (_a, agent, vc) = setup();
    let sub = AgentIdentity::create(DidMethod::Key, None).unwrap();
    let scope = Scope::with_budget_and_depth(vec!["tool:search".into()], Some(500), 2)
        .with_max_action_cost(100);
    let token = DelegationToken::mint(&vc, scope, 300, &agent).unwrap();

    let no_cap = Scope::with_budget_and_depth(vec!["tool:search".into()], Some(500), 1);
    assert!(
        token.attenuate(no_cap, 300, &sub).is_err(),
        "omitting the parent's cap is removing it, which is widening"
    );
}

#[test]
fn a_cap_above_the_credential_budget_is_refused_at_mint() {
    let (_a, agent, vc) = setup();
    let scope = Scope::with_budget_and_depth(vec!["tool:search".into()], Some(500), 2)
        .with_max_action_cost(501);
    assert!(
        DelegationToken::mint(&vc, scope, 300, &agent).is_err(),
        "a single action must not be permitted to exceed the total ceiling"
    );
}

#[test]
fn tampering_with_the_advisory_hop_cap_does_not_widen_it() {
    let (_a, agent, vc) = setup();
    let scope = Scope::with_budget_and_depth(vec!["tool:search".into()], Some(500), 2)
        .with_max_action_cost(100);
    let token = DelegationToken::mint(&vc, scope, 300, &agent).unwrap();
    let token = with_hop(&token, |h| h.max_action_cost = Some(100_000)).unwrap();
    assert!(
        token
            .verify(&Action::new("tool:search", "q").with_cost(5_000))
            .is_err(),
        "the Datalog check, not the hop field, is the enforcement"
    );
}

#[test]
fn the_chain_view_reports_the_effective_cap() {
    let (_a, agent, vc) = setup();
    let scope = Scope::with_budget_and_depth(vec!["tool:search".into()], Some(500), 2)
        .with_max_action_cost(100);
    let token = DelegationToken::mint(&vc, scope, 300, &agent).unwrap();
    assert_eq!(token.chain().entries[0].max_action_cost, Some(100));
}

#[test]
fn out_of_range_ttl_errors_rather_than_panicking() {
    let token = small_token(2, 1);
    let sub = AgentIdentity::create(DidMethod::Key, None).unwrap();

    for ttl in [9_223_372_036_854_775_808u64, u64::MAX, u64::MAX / 2] {
        let scope = Scope::with_budget_and_depth(vec!["tool:search".into()], Some(10), 0);
        let _ = token.attenuate(scope, ttl, &sub);
    }
}

#[test]
fn credential_rejects_an_unrepresentable_lifetime() {
    let mut claims = CapabilityClaims::new(vec!["tool:search".into()], 1, 3600);
    claims.valid_for_secs = 9_223_372_036_854_775_808;
    assert!(
        matches!(
            claims.validate(),
            Err(AgentCredsError::OutOfBounds {
                field: "valid_for_secs",
                ..
            })
        ),
        "an unrepresentable lifetime must be refused, not carried into Duration::seconds"
    );

    claims.valid_for_secs = MAX_VALID_FOR_SECS;
    assert!(claims.validate().is_ok(), "a century must remain issuable");
}

#[test]
fn verify_at_enforces_scope_and_the_exact_expiry_boundary() {
    let token = small_token(1, 0);
    let t = token.expires_at();

    let ok = Action::new("tool:search", "");
    assert!(token
        .verify_at(&ok, shifted(t, -1))
        .is_ok());
    assert!(
        token.verify_at(&ok, t).is_ok(),
        "a token is valid AT its expiry instant - the check is `now > expiry`, exclusive"
    );
    assert!(
        matches!(
            token.verify_at(&ok, shifted(t, 1)),
            Err(AgentCredsError::TokenExpired { .. })
        ),
        "and invalid one nanosecond later"
    );

    let denied = Action::new("tool:email", "");
    assert!(
        token
            .verify_at(&denied, shifted(t, -1_000_000_000))
            .is_err(),
        "an out-of-scope action must be refused via verify_at"
    );
}

#[test]
fn subset_boundaries_are_inclusive_where_equality_is_legal() {
    let parent = {
        let mut s = Scope::with_budget_and_depth(vec!["tool:search".into()], Some(100), 2);
        s.max_action_cost = Some(40);
        s
    };

    let mut equal_cap = Scope::with_budget_and_depth(vec!["tool:search".into()], Some(100), 1);
    equal_cap.max_action_cost = Some(40);
    assert!(
        equal_cap.is_subset_of(&parent),
        "restating the parent's exact per-action cap is narrowing, not widening"
    );

    let mut over_cap = equal_cap.clone();
    over_cap.max_action_cost = Some(41);
    assert!(
        !over_cap.is_subset_of(&parent),
        "a higher cap must be refused"
    );

    let no_cap_parent = Scope::with_budget_and_depth(vec!["tool:search".into()], Some(100), 2);
    let mut cap_at_ceiling = Scope::with_budget_and_depth(vec!["tool:search".into()], Some(100), 1);
    cap_at_ceiling.max_action_cost = Some(100);
    assert!(
        cap_at_ceiling.is_subset_of(&no_cap_parent),
        "a per-action cap equal to the whole budget is within the granted authority"
    );
    let mut cap_over_ceiling = cap_at_ceiling.clone();
    cap_over_ceiling.max_action_cost = Some(101);
    assert!(
        !cap_over_ceiling.is_subset_of(&no_cap_parent),
        "one cent above the ceiling is not"
    );
}

#[test]
fn a_chain_of_narrowing_scopes_permits_what_its_last_scope_names() {
    let all = ["tool:search", "tool:email", "tool:calendar"];
    let chains: [&[&[&str]]; 3] = [
        &[&["tool:search", "tool:email"], &["tool:email"], &["tool:email"]],
        &[&["tool:search", "tool:email", "tool:calendar"]],
        &[&["tool:calendar"], &[]],
    ];
    for hops in chains {
        let (anchor, agent, vc) = setup();
        let scope = |tools: &[&str]| {
            Scope::with_budget_and_depth(
                tools.iter().map(|s| (*s).to_string()).collect(),
                Some(500),
                3,
            )
        };
        let mut token = DelegationToken::mint(&vc, scope(&all), 3600, &agent).unwrap();
        for tools in hops {
            let sub = AgentIdentity::create(DidMethod::Key, None).unwrap();
            token = token.attenuate(scope(tools), 60, &sub).unwrap();
        }
        assert_eq!(token.depth() as usize, hops.len());
        let leaf = hops[hops.len() - 1];
        for t in all {
            assert_eq!(
                token
                    .verify_rooted(&Action::new(t, ""), &vc, &anchor)
                    .is_ok(),
                leaf.contains(&t)
            );
        }
    }
}

#[test]
fn the_principal_is_the_same_after_every_hop() {
    let (anchor, agent, vc, human) = setup_obo();
    let scope = || {
        Scope::with_budget_and_depth(
            vec!["tool:read_email".into(), "tool:search".into()],
            Some(500),
            3,
        )
    };
    let mut token = DelegationToken::mint(&vc, scope(), 3600, &agent).unwrap();
    for _ in 0..3 {
        let act = Action::new("tool:search", "");
        assert!(token
            .verify_rooted(&act.clone().on_behalf_of(human.did()), &vc, &anchor)
            .is_ok());
        assert!(token
            .verify_rooted(&act.clone().on_behalf_of("did:key:zImposter"), &vc, &anchor)
            .is_err());
        assert!(token.verify_rooted(&act, &vc, &anchor).is_err());
        let sub = AgentIdentity::create(DidMethod::Key, None).unwrap();
        token = token.attenuate(scope(), 60, &sub).unwrap();
    }
}

#[test]
fn a_hop_adds_its_gates_and_tightens_the_cap_for_all_below_it() {
    let (_anchor, agent, vc) = setup();
    let sub = AgentIdentity::create(DidMethod::Key, None).unwrap();
    let scope = Scope::with_budget_and_depth(vec!["tool:search".into()], Some(500), 2)
        .with_max_action_cost(100)
        .with_gates(vec![Gate::approval("tool:search")]);
    let token = DelegationToken::mint(&vc, scope, 300, &agent).unwrap();
    assert_eq!(token.max_action_cost(), Some(100));
    let narrow = Scope::with_budget_and_depth(vec!["tool:search".into()], Some(500), 1)
        .with_max_action_cost(50)
        .with_gates(vec![Gate::approval_key("tool:search")]);
    let child = token.attenuate(narrow, 300, &sub).unwrap();
    // What the child's own block adds is read back from the signed token.
    assert_eq!(child.max_action_cost(), Some(50));
    assert!(child.gates().contains(&Gate::approval("tool:search")));
    assert!(child.gates().contains(&Gate::approval_key("tool:search")));
    assert_eq!(
        child.required_gates(&Action::new("tool:search", "")).len(),
        2
    );
}

#[test]
fn a_token_lives_no_longer_than_its_parent_or_its_credential() {
    let (_anchor, agent, vc) = setup();
    let sub = AgentIdentity::create(DidMethod::Key, None).unwrap();
    let scope = |d: u32| Scope::with_budget_and_depth(vec!["tool:search".into()], None, d);
    let start = vc.issuance_date;
    let token = DelegationToken::mint_at(&vc, scope(2), 300, &agent, start).unwrap();
    assert_eq!(token.expires_at(), start.plus_secs(300));
    let child = token.attenuate_at(scope(1), 60, &sub, start).unwrap();
    assert_eq!(child.expires_at(), start.plus_secs(60));
    let long = token.attenuate_at(scope(1), 9_000, &sub, start).unwrap();
    assert_eq!(long.expires_at(), start.plus_secs(300));
    let late = start.plus_secs(3_500);
    let token = DelegationToken::mint_at(&vc, scope(2), 3_000, &agent, late).unwrap();
    assert_eq!(token.expires_at(), vc.expiration_date);
}

fn rows() -> Rows {
    Rows {
        vc_id: "vc".into(),
        issuer: "iss".into(),
        subject: "sub".into(),
        depths: Vec::new(),
        tools: Vec::new(),
        budgets: Vec::new(),
        caps: Vec::new(),
        principals: Vec::new(),
        resources: Vec::new(),
        gates: Vec::new(),
    }
}

#[test]
fn a_token_without_optional_facts_reads_as_unconstrained() {
    let x = read_rows(rows());
    assert_eq!(x.vc_id, "vc");
    assert_eq!(x.issuer, "iss");
    assert_eq!(x.subject, "sub");
    assert_eq!(x.root_max_depth, 0);
    assert!(x.root_tools.is_empty() && x.root_resources.is_empty() && x.gates.is_empty());
    assert_eq!(x.root_budget, None);
    assert_eq!(x.max_action_cost, None);
    assert_eq!(x.principal, None);
}

#[test]
fn the_tightest_cap_and_sorted_gates_are_read() {
    let mut q = rows();
    q.depths = vec![3];
    q.tools = vec!["b".into(), "a".into()];
    q.budgets = vec![500];
    q.caps = vec![100, 25, 60];
    q.principals = vec!["did:key:zP".into()];
    q.resources = vec!["r2".into(), "r1".into()];
    q.gates = vec![
        ("approval-key".into(), "t".into()),
        ("approval".into(), "z".into()),
        ("approval".into(), "a".into()),
        ("approval".into(), "z".into()),
    ];
    let x = read_rows(q);
    assert_eq!(x.root_max_depth, 3);
    assert_eq!(x.root_tools, vec!["a", "b"]);
    assert_eq!(x.root_budget, Some(500));
    assert_eq!(x.max_action_cost, Some(25));
    assert_eq!(x.principal.as_deref(), Some("did:key:zP"));
    assert_eq!(x.root_resources, vec!["r1", "r2"]);
    let gates: Vec<(&str, &str)> = x
        .gates
        .iter()
        .map(|g| (g.kind.as_str(), g.tool.as_str()))
        .collect();
    assert_eq!(
        gates,
        vec![("approval", "a"), ("approval", "z"), ("approval-key", "t")]
    );
}

#[test]
fn a_missing_required_fact_is_named() {
    assert_eq!(required(&vec!["x".to_string()], "vc_id").unwrap(), "x");
    match required(&Vec::new(), "vc_id") {
        Err(AgentCredsError::InvalidBiscuitSignature { reason }) => {
            assert_eq!(reason, "missing required fact: data($x) <- vc_id($x)");
        }
        _ => panic!("a missing fact must be refused"),
    }
}

#[test]
fn a_hop_without_a_budget_does_not_lift_the_bound() {
    let (_anchor, agent, vc) = setup();
    let (a, b) = (
        AgentIdentity::create(DidMethod::Key, None).unwrap(),
        AgentIdentity::create(DidMethod::Key, None).unwrap(),
    );
    let scope = |budget: Option<u32>, depth: u32| {
        Scope::with_budget_and_depth(vec!["tool:search".into()], budget, depth)
    };
    let root = DelegationToken::mint(&vc, scope(Some(100), 3), 300, &agent).unwrap();
    let child = root.attenuate(scope(None, 2), 300, &a).unwrap();
    assert!(matches!(
        child.attenuate(scope(Some(500), 1), 300, &b),
        Err(AgentCredsError::ScopeWideningAttempt { .. })
    ));
    assert!(child.attenuate(scope(Some(100), 1), 300, &b).is_ok());
}

#[test]
fn root_resources_beyond_the_grant_are_refused() {
    let anchor = TrustAnchor::generate().unwrap();
    let agent = AgentIdentity::create(DidMethod::Key, None).unwrap();
    let mut claims = CapabilityClaims::new(vec!["tool:search".into()], 2, 3600);
    claims.resources = Some(vec!["mailbox:alice/*".into()]);
    let vc = CapabilityCredential::issue(&anchor, agent.did(), claims, None).unwrap();
    // A token minted against an altered copy of the credential, without its resource bound.
    let mut loose = vc.clone();
    loose.claims.resources = None;
    let scope = |r: &str| {
        Scope::with_budget_and_depth(vec!["tool:search".into()], None, 1)
            .with_resources(vec![r.to_string()])
    };
    let beyond = DelegationToken::mint(&loose, scope("mailbox:bob/1"), 300, &agent).unwrap();
    let mut action = Action::new("tool:search", "");
    action.resource = Some("mailbox:bob/1".into());
    assert!(matches!(
        beyond.verify_rooted(&action, &vc, &anchor),
        Err(AgentCredsError::ScopeWideningAttempt { capability }) if capability == "mailbox:bob/1"
    ));
    let within = DelegationToken::mint(&vc, scope("mailbox:alice/1"), 300, &agent).unwrap();
    action.resource = Some("mailbox:alice/1".into());
    assert!(within.verify_rooted(&action, &vc, &anchor).is_ok());
}

#[test]
fn a_request_is_planned_fact_by_fact() {
    let mut action = Action::new("tool:search", "q");
    let now = Timestamp::from_unix(0, 7).unwrap();
    let plan = request_plan(&action, now).unwrap();
    assert_eq!(
        plan.facts,
        vec!["time(1970-01-01T00:00:00Z)", "operation(\"tool:search\")"]
    );
    assert_eq!(plan.policy, "allow if true");
    action.resource = Some("r".into());
    action.cost = Some(5);
    action.acting_for = Some("did:key:zP".into());
    let plan = request_plan(&action, now).unwrap();
    assert_eq!(
        plan.facts[2..],
        [
            "resource(\"r\")".to_string(),
            "action_cost(5)".to_string(),
            "acting_for(\"did:key:zP\")".to_string()
        ]
    );
    action.resource = Some("a\"b".into());
    assert!(matches!(
        request_plan(&action, now),
        Err(AgentCredsError::OutOfBounds { field: "scope", .. })
    ));
}

/// The last second of the year 9999.
const LAST_DATE: i64 = 253_402_300_799;

#[test]
fn a_time_without_a_datalog_date_is_refused_before_any_text() {
    let token = small_token(1, 1);
    let ok = Action::new("tool:search", "");
    assert!(token.verify_at(&ok, at(0)).is_ok());
    let refused = token.verify_at(&ok, at(-1));
    assert!(matches!(
        refused,
        Err(AgentCredsError::InvalidBiscuitSignature { .. })
    ));
    let quoted = Action::new("tool:\"search", "");
    assert!(matches!(
        token.verify_at(&quoted, at(0)),
        Err(AgentCredsError::OutOfBounds { .. })
    ));
    assert!(matches!(
        token.verify_at(&quoted, at(-1)),
        Err(AgentCredsError::InvalidBiscuitSignature { .. })
    ));
}

#[test]
fn an_expiry_without_a_datalog_date_cannot_be_minted_or_narrowed_to() {
    let (_anchor, agent, mut vc) = setup();
    let sub = AgentIdentity::create(DidMethod::Key, None).unwrap();
    let scope = |d: u32| Scope::with_budget_and_depth(vec!["tool:search".into()], None, d);
    let bad_text = |d: u32| scope(d).with_gates(vec![Gate::approval("tool:\"search")]);
    let broken = |r: Result<DelegationToken, AgentCredsError>| {
        matches!(r, Err(AgentCredsError::InvalidBiscuitSignature { .. }))
    };
    let unsafe_text = |r: Result<DelegationToken, AgentCredsError>| {
        matches!(r, Err(AgentCredsError::OutOfBounds { .. }))
    };
    assert!(DelegationToken::mint_at(&vc, scope(2), 300, &agent, at(-300)).is_ok());
    assert!(broken(DelegationToken::mint_at(
        &vc,
        scope(2),
        299,
        &agent,
        at(-300)
    )));
    // The expiry is written before the gates, behind the credential's identifiers.
    assert!(broken(DelegationToken::mint_at(
        &vc,
        bad_text(2),
        299,
        &agent,
        at(-300)
    )));
    assert!(unsafe_text(DelegationToken::mint_at(
        &vc,
        bad_text(2),
        300,
        &agent,
        at(-300)
    )));
    let mut odd = vc.clone();
    odd.id = "urn:\"vc".into();
    assert!(unsafe_text(DelegationToken::mint_at(
        &odd,
        scope(2),
        299,
        &agent,
        at(-300)
    )));
    vc.expiration_date = at(LAST_DATE + 1_000);
    let last = DelegationToken::mint_at(&vc, scope(2), 60, &agent, at(LAST_DATE - 60)).unwrap();
    assert_eq!(last.expires_at(), at(LAST_DATE));
    assert!(last.verify_at(&Action::new("tool:search", ""), at(LAST_DATE)).is_ok());
    assert!(broken(DelegationToken::mint_at(
        &vc,
        scope(2),
        61,
        &agent,
        at(LAST_DATE - 60)
    )));
    assert!(last.attenuate_at(scope(1), 300, &sub, at(-300)).is_ok());
    assert!(broken(last.attenuate_at(scope(1), 299, &sub, at(-300))));
    assert!(broken(last.attenuate_at(bad_text(1), 299, &sub, at(-300))));
    assert!(unsafe_text(last.attenuate_at(bad_text(1), 300, &sub, at(-300))));
}

#[test]
fn a_sealed_token_is_good_for_use_but_not_for_narrowing() {
    let token = small_token(2, 1);
    let sub = AgentIdentity::create(DidMethod::Key, None).unwrap();
    let mut wire = token.to_wire();
    let root = biscuit_auth::PublicKey::from_bytes(
        &wire.hops[0].delegation_public,
        biscuit_auth::builder::Algorithm::Ed25519,
    )
    .unwrap();
    wire.biscuit = biscuit_auth::Biscuit::from(&wire.biscuit, root)
        .unwrap()
        .seal()
        .unwrap()
        .to_vec()
        .unwrap();
    let sealed = DelegationToken::from_wire(wire).unwrap();
    assert!(sealed.verify(&Action::new("tool:search", "")).is_ok());
    let scope = || Scope::with_budget_and_depth(vec!["tool:search".into()], Some(10), 0);
    assert!(token.attenuate(scope(), 60, &sub).is_ok());
    let bad_text = scope().with_gates(vec![Gate::approval("tool:\"search")]);
    for narrow in [scope(), bad_text] {
        match sealed.attenuate(narrow, 60, &sub) {
            Err(AgentCredsError::InvalidBiscuitSignature { reason }) => {
                assert_eq!(reason, "tried to append a block to a sealed token");
            }
            other => panic!("a sealed token was narrowed: {:?}", other.is_ok()),
        }
    }
}

#[test]
fn narrowing_adds_to_its_parent_and_keeps_the_rest() {
    let token = small_token(3, 2);
    let sub = AgentIdentity::create(DidMethod::Key, None).unwrap();
    let narrow = Scope::with_budget_and_depth(vec!["tool:search".into()], Some(5), 1)
        .with_gates(vec![Gate::approval("tool:search")]);
    let child = token.attenuate(narrow, 60, &sub).unwrap();
    assert_eq!(child.depth(), token.depth() + 1);
    assert_eq!(child.leaf_agent_did(), sub.did());
    assert_eq!(child.root_agent_did(), token.root_agent_did());
    assert_eq!(child.vc_id(), token.vc_id());
    assert_eq!(child.issuer_did(), token.issuer_did());
    assert_eq!(child.principal_did(), token.principal_did());
    assert!(child.expires_at() <= token.expires_at());
    assert_eq!(token.gates().len(), 0);
    assert_eq!(child.gates().len(), 1);
}
