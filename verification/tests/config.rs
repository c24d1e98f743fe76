use agentcreds_core::config::{
    AgentCredsConfig, CheqdNetworkKind, DelegationConfig, DidMethodKind, Environment, IdpConfig,
    IdentityConfig, KeyAlgorithmKind, SignerBackendKind, SignerConfig, TrustConfig, TrustLevelKind,
    DEFAULT_JWKS_TTL_SECS,
};
use agentcreds_core::did::{CheqdNetwork, DidMethod, KeyAlgorithm};
use agentcreds_core::error::AgentCredsError;
use agentcreds_core::registry::TrustLevel;

/// The environment in which the given variables are set.
fn env(vars: &[(&str, &str)]) -> Environment {
    let mut e = Environment::empty();
    for (name, value) in vars {
        let v = Some((*value).to_string());
        match *name {
            "AC_DID_METHOD" => e.did_method = v,
            "AC_KEY_ALGORITHM" => e.key_algorithm = v,
            "AC_WEB_HOST" => e.web_host = v,
            "AC_WEB_PATH" => e.web_path = v,
            "AC_CHEQD_NETWORK" => e.cheqd_network = v,
            "AC_INDY_NAMESPACE" => e.indy_namespace = v,
            "AC_DELEGATION_MAX_DEPTH" => e.max_depth = v,
            "AC_DELEGATION_TTL_SECS" => e.default_ttl_secs = v,
            "AC_DELEGATION_MAX_TTL" => e.max_ttl_secs = v,
            "AC_TRUST_MIN_LEVEL" => e.minimum_trust_level = v,
            "AC_SIGNER_BACKEND" => e.signer_backend = v,
            "AC_SIGNER_KEY_ID" => e.signer_key_id = v,
            "AC_SIGNER_REGION" => e.signer_region = v,
            other => panic!("unknown variable {other}"),
        }
    }
    e
}

fn with_env(vars: &[(&str, &str)]) -> AgentCredsConfig {
    AgentCredsConfig::from_env(&env(vars))
}

#[test]
fn default_config_is_did_key_ed25519() {
    let cfg = AgentCredsConfig::default();
    assert_eq!(cfg.identity.did_method, DidMethodKind::Key);
    assert_eq!(cfg.identity.key_algorithm, KeyAlgorithmKind::Ed25519);
    let method = cfg.identity.did_method().unwrap();
    assert_eq!(method, DidMethod::Key);
    let algo = cfg.identity.key_algorithm();
    assert_eq!(algo, KeyAlgorithm::Ed25519);
}

#[test]
fn web_without_host_is_error() {
    let cfg = with_env(&[("AC_DID_METHOD", "web")]);
    assert!(matches!(
        cfg.identity.did_method(),
        Err(AgentCredsError::MissingField {
            field: "identity.web_host"
        })
    ));
}

#[test]
fn indy_without_namespace_is_error() {
    let cfg = with_env(&[("AC_DID_METHOD", "indy")]);
    assert!(matches!(
        cfg.identity.did_method(),
        Err(AgentCredsError::MissingField {
            field: "identity.indy_namespace"
        })
    ));
}

#[test]
fn each_method_resolves_with_its_companion_fields() {
    let identity = IdentityConfig {
        did_method: DidMethodKind::Cheqd,
        cheqd_network: Some(CheqdNetworkKind::Mainnet),
        key_algorithm: KeyAlgorithmKind::P256,
        ..IdentityConfig::default()
    };
    assert_eq!(
        identity.did_method().unwrap(),
        DidMethod::Cheqd {
            network: CheqdNetwork::Mainnet,
            unique_id: String::new()
        }
    );
    assert_eq!(identity.key_algorithm(), KeyAlgorithm::P256);

    let identity = IdentityConfig {
        cheqd_network: None,
        ..identity
    };
    assert_eq!(
        identity.did_method().unwrap(),
        DidMethod::Cheqd {
            network: CheqdNetwork::Testnet,
            unique_id: String::new()
        }
    );

    let identity = IdentityConfig {
        did_method: DidMethodKind::Indy,
        indy_namespace: Some("sovrin:main".into()),
        ..IdentityConfig::default()
    };
    assert_eq!(
        identity.did_method().unwrap(),
        DidMethod::Indy {
            namespace: "sovrin:main".into(),
            unique_id: String::new()
        }
    );
}

#[test]
fn clamp_ttl_enforces_max() {
    let cfg = AgentCredsConfig::default();
    assert_eq!(
        cfg.delegation.clamp_ttl(1_000_000),
        cfg.delegation.max_ttl_secs
    );
    assert_eq!(cfg.delegation.clamp_ttl(100), 100);
}

#[test]
fn trust_level_converts_correctly() {
    assert_eq!(
        TrustLevel::from(TrustLevelKind::Unverified),
        TrustLevel::Unverified
    );
    assert_eq!(
        TrustLevel::from(TrustLevelKind::SelfAsserted),
        TrustLevel::SelfAsserted
    );
    assert_eq!(
        TrustLevel::from(TrustLevelKind::Verified),
        TrustLevel::Verified
    );
    assert_eq!(
        TrustLevel::from(TrustLevelKind::Authoritative),
        TrustLevel::Authoritative
    );
}

#[test]
fn key_algorithm_converts_correctly() {
    assert_eq!(
        KeyAlgorithm::from(KeyAlgorithmKind::Ed25519),
        KeyAlgorithm::Ed25519
    );
    assert_eq!(
        KeyAlgorithm::from(KeyAlgorithmKind::P256),
        KeyAlgorithm::P256
    );
}

#[test]
fn signer_defaults_to_software_and_builds() {
    let cfg = AgentCredsConfig::default();
    assert_eq!(cfg.signer.backend, SignerBackendKind::Software);
    let signer = cfg.build_signer().unwrap();
    assert_eq!(signer.algorithm(), KeyAlgorithm::Ed25519);
}

#[test]
fn external_signer_backend_requires_host_wiring() {
    let mut cfg = AgentCredsConfig::default();
    cfg.signer.backend = SignerBackendKind::AwsKms;
    assert!(matches!(
        cfg.build_signer(),
        Err(AgentCredsError::OutOfBounds {
            field: "signer.backend",
            ..
        })
    ));
}

#[test]
fn providers_are_looked_up_by_issuer() {
    let mut cfg = AgentCredsConfig::default();
    assert!(cfg.idp.is_empty());
    cfg.idp = vec![
        IdpConfig {
            issuer: "https://login.acme.com".into(),
            audience: "agentcreds-prod".into(),
            jwks_ttl_secs: 1800,
            trust_level: TrustLevelKind::Authoritative,
            discovery_url: None,
        },
        IdpConfig {
            issuer: "https://accounts.google.com".into(),
            audience: "1234.apps.googleusercontent.com".into(),
            jwks_ttl_secs: DEFAULT_JWKS_TTL_SECS,
            trust_level: TrustLevelKind::default(),
            discovery_url: None,
        },
    ];
    let acme = cfg.idp_for("https://login.acme.com").unwrap();
    assert_eq!(acme.audience, "agentcreds-prod");
    assert_eq!(acme.jwks_ttl_secs, 1800);
    assert_eq!(acme.trust_level(), TrustLevel::Authoritative);
    assert_eq!(
        acme.discovery_url(),
        "https://login.acme.com/.well-known/openid-configuration"
    );
    let google = cfg.idp_for("https://accounts.google.com").unwrap();
    assert_eq!(google.jwks_ttl_secs, 3600);
    assert_eq!(google.trust_level(), TrustLevel::SelfAsserted);
    assert!(cfg.idp_for("https://unknown.example").is_none());

    let slashed = IdpConfig {
        issuer: "https://login.acme.com//".into(),
        ..acme.clone()
    };
    assert_eq!(
        slashed.discovery_url(),
        "https://login.acme.com/.well-known/openid-configuration"
    );
    let explicit = IdpConfig {
        discovery_url: Some("https://login.acme.com/oidc/.well-known/openid-configuration".into()),
        ..acme.clone()
    };
    assert_eq!(
        explicit.discovery_url(),
        "https://login.acme.com/oidc/.well-known/openid-configuration"
    );
}

#[test]
fn env_overrides_every_identity_field() {
    let cfg = with_env(&[
        ("AC_DID_METHOD", "web"),
        ("AC_KEY_ALGORITHM", "p-256"),
        ("AC_WEB_HOST", "id.acme.example"),
        ("AC_WEB_PATH", "agents"),
        ("AC_INDY_NAMESPACE", "sovrin:staging"),
        ("AC_CHEQD_NETWORK", "mainnet"),
    ]);

    assert_eq!(cfg.identity.did_method, DidMethodKind::Web);
    assert_eq!(cfg.identity.key_algorithm, KeyAlgorithmKind::P256);
    assert_eq!(cfg.identity.web_host.as_deref(), Some("id.acme.example"));
    assert_eq!(cfg.identity.web_path.as_deref(), Some("agents"));
    assert_eq!(
        cfg.identity.indy_namespace.as_deref(),
        Some("sovrin:staging")
    );
    assert_eq!(cfg.identity.cheqd_network, Some(CheqdNetworkKind::Mainnet));

    // The method resolves with its companion field supplied.
    assert_eq!(
        cfg.identity.did_method().unwrap(),
        DidMethod::Web {
            host: "id.acme.example".into(),
            path: Some("agents".into())
        }
    );
    assert!(cfg.validate().is_ok());
}

#[test]
fn env_overrides_delegation_trust_and_signer() {
    let cfg = with_env(&[
        ("AC_DELEGATION_MAX_DEPTH", "7"),
        ("AC_DELEGATION_TTL_SECS", "120"),
        ("AC_DELEGATION_MAX_TTL", "300"),
        ("AC_TRUST_MIN_LEVEL", "authoritative"),
        ("AC_SIGNER_BACKEND", "aws-kms"),
        ("AC_SIGNER_KEY_ID", "arn:aws:kms:us-east-1:1:key/abc"),
        ("AC_SIGNER_REGION", "us-east-1"),
    ]);

    assert_eq!(cfg.delegation.max_depth, 7);
    assert_eq!(cfg.delegation.default_ttl_secs, 120);
    assert_eq!(cfg.delegation.max_ttl_secs, 300);
    // The ceiling is applied, not merely stored.
    assert_eq!(cfg.delegation.clamp_ttl(9_999), 300);

    assert_eq!(cfg.trust.minimum_trust_level, TrustLevelKind::Authoritative);
    assert_eq!(cfg.trust.minimum_trust_level(), TrustLevel::Authoritative);

    assert_eq!(cfg.signer.backend, SignerBackendKind::AwsKms);
    assert_eq!(
        cfg.signer.key_id.as_deref(),
        Some("arn:aws:kms:us-east-1:1:key/abc")
    );
    assert_eq!(cfg.signer.region.as_deref(), Some("us-east-1"));
    // An external backend must refuse to build in-process, naming itself.
    let err = cfg.build_signer().err().unwrap().to_string();
    assert!(
        err.contains("aws_kms"),
        "error should name the backend: {err}"
    );
}

#[test]
fn unparsable_env_values_leave_defaults_intact() {
    let defaults = AgentCredsConfig::default();
    let cfg = with_env(&[
        ("AC_DID_METHOD", "not-a-method"),
        ("AC_KEY_ALGORITHM", "rsa4096"),
        ("AC_CHEQD_NETWORK", "devnet"),
        ("AC_TRUST_MIN_LEVEL", "somewhat"),
        ("AC_SIGNER_BACKEND", "quantum"),
        ("AC_DELEGATION_MAX_DEPTH", "-1"),
        ("AC_DELEGATION_TTL_SECS", "soon"),
        ("AC_DELEGATION_MAX_TTL", ""),
    ]);

    assert_eq!(cfg.identity.did_method, defaults.identity.did_method);
    assert_eq!(cfg.identity.key_algorithm, defaults.identity.key_algorithm);
    assert_eq!(
        cfg.identity.cheqd_network, None,
        "a bad network is not stored"
    );
    assert_eq!(
        cfg.trust.minimum_trust_level,
        defaults.trust.minimum_trust_level
    );
    assert_eq!(cfg.signer.backend, defaults.signer.backend);
    assert_eq!(cfg.delegation.max_depth, defaults.delegation.max_depth);
    assert_eq!(
        cfg.delegation.default_ttl_secs,
        defaults.delegation.default_ttl_secs
    );
    assert_eq!(
        cfg.delegation.max_ttl_secs,
        defaults.delegation.max_ttl_secs
    );
}

#[test]
fn numbers_are_read_as_decimal_digits_after_an_optional_plus() {
    let depth = |v: &str| {
        with_env(&[("AC_DELEGATION_MAX_DEPTH", v)])
            .delegation
            .max_depth
    };
    assert_eq!(depth("+12"), 12);
    assert_eq!(depth("0007"), 7);
    assert_eq!(depth("4294967295"), u32::MAX);
    assert_eq!(depth("4294967296"), 3);
    assert_eq!(depth("+"), 3);
    assert_eq!(depth(" 5"), 3);
    assert_eq!(depth("5x"), 3);
    let ttl = |v: &str| {
        with_env(&[("AC_DELEGATION_MAX_TTL", v)])
            .delegation
            .max_ttl_secs
    };
    assert_eq!(ttl("18446744073709551615"), u64::MAX);
    assert_eq!(ttl("18446744073709551616"), 86_400);
    assert_eq!(ttl("99999999999999999999999"), 86_400);
}

#[test]
fn an_empty_environment_gives_the_defaults() {
    let cfg = AgentCredsConfig::from_env(&Environment::empty());
    assert_eq!(
        cfg.delegation,
        DelegationConfig {
            max_depth: 3,
            default_ttl_secs: 3600,
            max_ttl_secs: 86_400
        }
    );
    assert_eq!(
        cfg.trust,
        TrustConfig {
            minimum_trust_level: TrustLevelKind::SelfAsserted
        }
    );
    assert_eq!(cfg.signer.backend, SignerBackendKind::Software);
    assert!(cfg.idp.is_empty());
}

#[test]
fn every_env_alias_resolves() {
    for (raw, want) in [
        ("key", DidMethodKind::Key),
        ("WEB", DidMethodKind::Web),
        ("Cheqd", DidMethodKind::Cheqd),
        ("indy", DidMethodKind::Indy),
    ] {
        let cfg = with_env(&[("AC_DID_METHOD", raw)]);
        assert_eq!(cfg.identity.did_method, want, "AC_DID_METHOD={raw}");
    }

    for (raw, want) in [
        ("ed25519", KeyAlgorithmKind::Ed25519),
        ("Ed25519", KeyAlgorithmKind::Ed25519),
        ("p256", KeyAlgorithmKind::P256),
        ("P-256", KeyAlgorithmKind::P256),
    ] {
        let cfg = with_env(&[("AC_KEY_ALGORITHM", raw)]);
        assert_eq!(cfg.identity.key_algorithm, want, "AC_KEY_ALGORITHM={raw}");
    }

    for (raw, want) in [
        ("mainnet", CheqdNetworkKind::Mainnet),
        ("TESTNET", CheqdNetworkKind::Testnet),
    ] {
        let cfg = with_env(&[("AC_CHEQD_NETWORK", raw)]);
        assert_eq!(cfg.identity.cheqd_network, Some(want), "network={raw}");
    }

    for (raw, want) in [
        ("unverified", TrustLevelKind::Unverified),
        ("self_asserted", TrustLevelKind::SelfAsserted),
        ("verified", TrustLevelKind::Verified),
        ("AUTHORITATIVE", TrustLevelKind::Authoritative),
    ] {
        let cfg = with_env(&[("AC_TRUST_MIN_LEVEL", raw)]);
        assert_eq!(cfg.trust.minimum_trust_level, want, "trust={raw}");
    }

    for (raw, want) in [
        ("software", SignerBackendKind::Software),
        ("aws_kms", SignerBackendKind::AwsKms),
        ("aws-kms", SignerBackendKind::AwsKms),
        ("KMS", SignerBackendKind::AwsKms),
        ("gcp_kms", SignerBackendKind::GcpKms),
        ("gcp-kms", SignerBackendKind::GcpKms),
        ("gcp", SignerBackendKind::GcpKms),
        ("cloud_kms", SignerBackendKind::GcpKms),
        ("azure_key_vault", SignerBackendKind::AzureKeyVault),
        ("azure", SignerBackendKind::AzureKeyVault),
        ("pkcs11", SignerBackendKind::Pkcs11),
        ("pkcs#11", SignerBackendKind::Pkcs11),
        ("hsm", SignerBackendKind::Pkcs11),
    ] {
        let cfg = with_env(&[("AC_SIGNER_BACKEND", raw)]);
        assert_eq!(cfg.signer.backend, want, "AC_SIGNER_BACKEND={raw}");
    }
}

#[test]
fn backend_names_round_trip_through_from_str() {
    for backend in [
        SignerBackendKind::Software,
        SignerBackendKind::AwsKms,
        SignerBackendKind::GcpKms,
        SignerBackendKind::AzureKeyVault,
        SignerBackendKind::Pkcs11,
    ] {
        let name = backend.as_str();
        assert!(!name.is_empty());
        assert_eq!(
            SignerBackendKind::from_str(name),
            Some(backend),
            "canonical name '{name}' must parse back to itself"
        );
    }
}

#[test]
fn every_external_backend_refuses_to_build_in_process() {
    for backend in [
        SignerBackendKind::AwsKms,
        SignerBackendKind::GcpKms,
        SignerBackendKind::AzureKeyVault,
        SignerBackendKind::Pkcs11,
    ] {
        let cfg = SignerConfig {
            backend,
            key_id: Some("k".into()),
            region: Some("r".into()),
        };
        let err = cfg
            .build_signer(KeyAlgorithm::Ed25519)
            .err()
            .unwrap()
            .to_string();
        assert!(
            err.contains(backend.as_str()) && err.contains("from_signer"),
            "{backend:?} must name itself and point at TrustAnchor::from_signer: {err}"
        );
    }
}

#[test]
fn validate_agrees_with_did_method() {
    let mut cfg = AgentCredsConfig::default();
    assert!(cfg.validate().is_ok());

    cfg.identity.did_method = DidMethodKind::Web;
    assert!(
        cfg.validate().is_err(),
        "web without a host must not validate"
    );
    assert!(cfg.identity.did_method().is_err());

    cfg.identity.web_host = Some("h.example".into());
    assert!(cfg.validate().is_ok());
    assert!(cfg.identity.did_method().is_ok());

    cfg.identity.did_method = DidMethodKind::Indy;
    assert!(
        cfg.validate().is_err(),
        "indy without a namespace must not validate"
    );
    cfg.identity.indy_namespace = Some("sovrin".into());
    assert!(cfg.validate().is_ok());

    // Cheqd needs no companion field: the network defaults.
    cfg.identity.did_method = DidMethodKind::Cheqd;
    assert!(cfg.validate().is_ok());
}
