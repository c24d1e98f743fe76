use agentcreds_core::did::{
    public_key_from_did_document, AgentIdentity, AnchorSigner, CheqdNetwork, DidMethod,
    KeyAlgorithm, PublicKey, SoftwareSigner, TrustAnchor,
};
use agentcreds_core::error::AgentCredsError;
use agentcreds_core::registry::decode_multibase;
use agentcreds_core::vc::{CapabilityClaims, CapabilityCredential};

struct ExternalSigner {
    identity: AgentIdentity,
}

impl AnchorSigner for ExternalSigner {
    fn algorithm(&self) -> KeyAlgorithm {
        self.identity.algorithm()
    }
    fn public_key(&self) -> &PublicKey {
        self.identity.public_key()
    }
    fn sign(&self, message: &[u8]) -> Result<Vec<u8>, AgentCredsError> {
        self.identity.sign(message)
    }
}

#[test]
fn key_algorithm_variants_are_exhaustively_handled() {
    for alg in [KeyAlgorithm::Ed25519, KeyAlgorithm::P256] {
        match alg {
            KeyAlgorithm::Ed25519 | KeyAlgorithm::P256 => {
                let id = AgentIdentity::create(DidMethod::Key, Some(alg)).unwrap();
                assert_eq!(id.algorithm(), alg);
                let pk = PublicKey::from_did_key(id.did()).unwrap();
                assert_eq!(pk.algorithm, alg);
            }
        }
    }
}

#[test]
fn create_did_key_ed25519() {
    let id = AgentIdentity::create(DidMethod::Key, None).unwrap();
    assert!(id.did().starts_with("did:key:z"));
    assert_eq!(id.algorithm(), KeyAlgorithm::Ed25519);
}

#[test]
fn create_did_key_p256() {
    let id = AgentIdentity::create(DidMethod::Key, Some(KeyAlgorithm::P256)).unwrap();
    assert!(id.did().starts_with("did:key:z"));
    assert_eq!(id.algorithm(), KeyAlgorithm::P256);
}

#[test]
fn create_did_web() {
    let id = AgentIdentity::create(
        DidMethod::Web {
            host: "example.com".into(),
            path: Some("agents/test".into()),
        },
        None,
    )
    .unwrap();
    assert!(id.did().starts_with("did:web:example.com"));
}

#[test]
fn sign_and_verify_round_trip_ed25519() {
    let id = AgentIdentity::create(DidMethod::Key, None).unwrap();
    let message = b"hello agentcreds";
    let sig = id.sign(message).unwrap();
    assert!(id.verify(message, &sig).is_ok());
}

#[test]
fn sign_and_verify_round_trip_p256() {
    let id = AgentIdentity::create(DidMethod::Key, Some(KeyAlgorithm::P256)).unwrap();
    let message = b"hello agentcreds p256";
    let sig = id.sign(message).unwrap();
    assert!(id.verify(message, &sig).is_ok());
}

#[test]
fn signature_rejects_tampered_message() {
    let id = AgentIdentity::create(DidMethod::Key, None).unwrap();
    let sig = id.sign(b"original").unwrap();
    assert!(id.verify(b"tampered", &sig).is_err());
}

#[test]
fn did_document_structure() {
    let id = AgentIdentity::create(DidMethod::Key, None).unwrap();
    let doc = id.document();
    assert_eq!(doc.id, id.did());
    assert!(!doc.verification_method.is_empty());
    assert!(!doc.authentication.is_empty());
}

#[test]
fn fingerprint_is_deterministic() {
    let id = AgentIdentity::create(DidMethod::Key, None).unwrap();
    assert_eq!(id.fingerprint(), id.fingerprint());
}

#[test]
fn trust_anchor_sign_verify() {
    let anchor = TrustAnchor::generate().unwrap();
    let msg = b"trust anchor test";
    let sig = anchor.sign(msg).unwrap();
    assert!(anchor.verify_signature(msg, &sig).is_ok());
}

#[test]
fn debug_redacts_private_key() {
    let id = AgentIdentity::create(DidMethod::Key, None).unwrap();
    let debug_str = id.debug_text();
    assert!(debug_str.contains("REDACTED"));
    assert!(!debug_str.contains("signing_key_ed25519: Some"));
}

#[test]
fn resolver_required_for_cheqd_without_resolver() {
    let result = TrustAnchor::create(
        DidMethod::Cheqd {
            network: CheqdNetwork::Testnet,
            unique_id: "abc123".into(),
        },
        None,
        None,
    );
    assert!(matches!(
        result,
        Err(AgentCredsError::ResolverRequired { .. })
    ));
}

#[test]
fn resolver_required_for_indy_without_resolver() {
    let result = TrustAnchor::create(
        DidMethod::Indy {
            namespace: "sovrin:main".into(),
            unique_id: "abc123".into(),
        },
        None,
        None,
    );
    assert!(matches!(
        result,
        Err(AgentCredsError::ResolverRequired { .. })
    ));
}

#[test]
fn trust_anchor_generate_creates_key_did() {
    let anchor = TrustAnchor::generate().unwrap();
    assert!(anchor.did().starts_with("did:key:"));
}

#[test]
fn trust_anchor_from_identity_preserves_did() {
    let identity = AgentIdentity::create(DidMethod::Key, None).unwrap();
    let expected_did = identity.did().to_string();
    let anchor = TrustAnchor::from_identity(identity);
    assert_eq!(anchor.did(), expected_did);
}

#[test]
fn trust_anchor_debug_redacts_key() {
    let anchor = TrustAnchor::generate().unwrap();
    let debug_str = anchor.debug_text();
    assert_eq!(
        debug_str,
        format!(
            "TrustAnchor {{ did: {:?}, signing_key: \"[REDACTED]\" }}",
            anchor.did()
        )
    );
}

#[test]
fn trust_anchor_from_custom_signer_signs_and_verifies() {
    let id = AgentIdentity::create(DidMethod::Key, None).unwrap();
    let expected_did = id.did().to_string();
    let anchor = TrustAnchor::from_signer(Box::new(ExternalSigner { identity: id }));

    assert!(anchor.did().starts_with("did:key:z"));
    assert_eq!(anchor.did(), expected_did);
    assert_eq!(anchor.document().id, expected_did);

    let sig = anchor.sign(b"payload").unwrap();
    assert!(anchor.verify_signature(b"payload", &sig).is_ok());
    assert!(anchor.verify_signature(b"tampered", &sig).is_err());
}

#[test]
fn custom_signer_anchor_issues_verifiable_credential() {
    let key = AgentIdentity::create(DidMethod::Key, None).unwrap();
    let anchor = TrustAnchor::from_signer(Box::new(ExternalSigner { identity: key }));
    let agent = AgentIdentity::create(DidMethod::Key, None).unwrap();
    let claims = CapabilityClaims::new(vec!["tool:search".into()], 1, 3600);
    let vc = CapabilityCredential::issue(&anchor, agent.did(), claims, None).unwrap();
    assert!(vc.verify(&anchor, true).is_ok());
}

#[test]
fn two_identities_have_different_fingerprints() {
    let id1 = AgentIdentity::create(DidMethod::Key, None).unwrap();
    let id2 = AgentIdentity::create(DidMethod::Key, None).unwrap();
    assert_ne!(id1.fingerprint(), id2.fingerprint());
}

#[test]
fn did_key_multibase_prefix_is_z() {
    let id = AgentIdentity::create(DidMethod::Key, None).unwrap();
    assert!(id.did().starts_with("did:key:z"));
    let vm = &id.document().verification_method[0];
    assert!(vm.public_key_multibase.starts_with('z'));
}

#[test]
fn did_cheqd_derives_correct_format() {
    let id = AgentIdentity::create(
        DidMethod::Cheqd {
            network: CheqdNetwork::Testnet,
            unique_id: "test123xyz".into(),
        },
        None,
    )
    .unwrap();
    assert_eq!(id.did(), "did:cheqd:testnet:test123xyz");
}

#[test]
fn did_indy_derives_correct_format() {
    let id = AgentIdentity::create(
        DidMethod::Indy {
            namespace: "sovrin:main".into(),
            unique_id: "WRfXPg8abc".into(),
        },
        None,
    )
    .unwrap();
    assert_eq!(id.did(), "did:indy:sovrin:main:WRfXPg8abc");
}

#[test]
fn did_document_primary_key_is_some() {
    let id = AgentIdentity::create(DidMethod::Key, None).unwrap();
    let doc = id.document();
    assert!(doc.primary_key_multibase().is_some());
    assert!(doc.primary_key_multibase().unwrap().starts_with('z'));
}

#[test]
fn verification_method_type_ed25519() {
    let id = AgentIdentity::create(DidMethod::Key, None).unwrap();
    let vm = &id.document().verification_method[0];
    assert_eq!(vm.vm_type, "Ed25519VerificationKey2020");
    assert_eq!(vm.controller, id.did());
}

#[test]
fn verification_method_type_p256() {
    let id = AgentIdentity::create(DidMethod::Key, Some(KeyAlgorithm::P256)).unwrap();
    let vm = &id.document().verification_method[0];
    assert_eq!(vm.vm_type, "EcdsaSecp256r1VerificationKey2019");
}

#[test]
fn cross_verify_wrong_identity_rejects_signature() {
    let id1 = AgentIdentity::create(DidMethod::Key, None).unwrap();
    let id2 = AgentIdentity::create(DidMethod::Key, None).unwrap();
    let sig = id1.sign(b"some payload").unwrap();
    assert!(id2.verify(b"some payload", &sig).is_err());
}

#[test]
fn did_web_with_path_derives_correct_format() {
    let id = AgentIdentity::create(
        DidMethod::Web {
            host: "example.com".into(),
            path: Some("users/alice".into()),
        },
        None,
    )
    .unwrap();
    assert!(id.did().starts_with("did:web:example.com:users:alice"));
}

#[test]
fn cheqd_network_display() {
    assert_eq!(CheqdNetwork::Mainnet.to_string(), "mainnet");
    assert_eq!(CheqdNetwork::Testnet.to_string(), "testnet");
}

#[test]
fn every_did_method_renders_its_canonical_string() {
    assert_eq!(DidMethod::Key.to_string(), "did:key");
    assert_eq!(
        DidMethod::Web {
            host: "example.com".into(),
            path: None
        }
        .to_string(),
        "did:web:example.com"
    );
    assert_eq!(
        DidMethod::Web {
            host: "example.com".into(),
            path: Some("agents/prod".into())
        }
        .to_string(),
        "did:web:example.com:agents:prod"
    );
    assert_eq!(
        DidMethod::Cheqd {
            network: CheqdNetwork::Testnet,
            unique_id: "abc123".into()
        }
        .to_string(),
        "did:cheqd:testnet:abc123"
    );
    assert_eq!(
        DidMethod::Indy {
            namespace: "sovrin:staging".into(),
            unique_id: "xyz".into()
        }
        .to_string(),
        "did:indy:sovrin:staging:xyz"
    );
}

#[test]
fn did_key_decoding_refuses_unknown_prefixes_and_wrong_lengths() {
    let anchor = TrustAnchor::generate().unwrap();
    let good = PublicKey::from_did_key(anchor.did()).unwrap();
    assert_eq!(good.algorithm, KeyAlgorithm::Ed25519);
    assert_eq!(good.bytes.len(), 32);

    assert!(PublicKey::from_did_key("did:web:example.com").is_err());
    assert!(PublicKey::from_did_key("").is_err());
    assert!(PublicKey::from_did_key("did:key:NOT-MULTIBASE").is_err());

    let unknown = format!("z{}", bs58::encode(&[0xff, 0xff, 1, 2, 3, 4]).into_string());
    assert!(
        matches!(
            PublicKey::from_did_key(&format!("did:key:{unknown}")),
            Err(AgentCredsError::InvalidKeyMaterial { .. })
        ),
        "an unknown multicodec prefix must be refused"
    );

    let mut short = vec![0xed, 0x01];
    short.extend_from_slice(&[7u8; 8]);
    let short = format!("z{}", bs58::encode(&short).into_string());
    assert!(
        matches!(
            PublicKey::from_did_key(&format!("did:key:{short}")),
            Err(AgentCredsError::InvalidKeyMaterial { .. })
        ),
        "a length disagreeing with the declared algorithm must be refused"
    );

    let mut p256_short = vec![0x12, 0x00];
    p256_short.extend_from_slice(&[7u8; 32]);
    let p256_short = format!("z{}", bs58::encode(&p256_short).into_string());
    assert!(PublicKey::from_did_key(&format!("did:key:{p256_short}")).is_err());
}

#[test]
fn verification_refuses_mis_sized_keys_and_signatures() {
    for algorithm in [KeyAlgorithm::Ed25519, KeyAlgorithm::P256] {
        let signer = SoftwareSigner::generate(Some(algorithm)).unwrap();
        let key = signer.public_key().clone();
        let sig = signer.sign(b"message").unwrap();

        key.verify(b"message", &sig)
            .unwrap_or_else(|e| panic!("{algorithm:?} must verify its own: {e:?}"));

        assert!(key.verify(b"other message", &sig).is_err());

        assert!(key.verify(b"message", &sig[..sig.len() - 1]).is_err());
        assert!(key.verify(b"message", &[]).is_err());

        let bad_key = PublicKey {
            algorithm,
            bytes: vec![0u8; 7],
        };
        assert!(
            bad_key.verify(b"message", &sig).is_err(),
            "{algorithm:?} must refuse a mis-sized key"
        );
    }
}

#[test]
fn document_resolution_covers_both_algorithms_and_refuses_unknown_types() {
    for algorithm in [KeyAlgorithm::Ed25519, KeyAlgorithm::P256] {
        let anchor = TrustAnchor::from_signer(Box::new(
            SoftwareSigner::generate(Some(algorithm)).unwrap(),
        ));
        let doc = anchor.document().clone();
        let key = public_key_from_did_document(anchor.did(), &doc)
            .unwrap_or_else(|e| panic!("{algorithm:?} document must resolve: {e:?}"));
        assert_eq!(key.algorithm, algorithm);
        assert_eq!(&key.bytes, &anchor.public_key().bytes);
    }

    let anchor = TrustAnchor::generate().unwrap();
    let mut doc = anchor.document().clone();
    doc.verification_method[0].vm_type = "SomeFutureVerificationKey".into();
    assert!(
        matches!(
            public_key_from_did_document(anchor.did(), &doc),
            Err(AgentCredsError::DidResolutionFailed { .. })
        ),
        "an unknown verification-method type must be refused"
    );

    let mut empty = anchor.document().clone();
    empty.verification_method.clear();
    assert!(public_key_from_did_document(anchor.did(), &empty).is_err());
}

#[test]
fn a_public_only_signer_reports_its_algorithm_and_refuses_to_sign() {
    let anchor = TrustAnchor::generate().unwrap();
    let verify_only = TrustAnchor::from_did_key(anchor.did()).unwrap();

    assert_eq!(verify_only.did(), anchor.did());
    assert_eq!(verify_only.algorithm(), KeyAlgorithm::Ed25519);
    assert_eq!(&verify_only.public_key().bytes, &anchor.public_key().bytes);
    assert!(
        verify_only.sign(b"anything").is_err(),
        "a verify-only anchor must not be able to sign"
    );

    let sig = anchor.sign(b"message").unwrap();
    assert!(verify_only.public_key().verify(b"message", &sig).is_ok());
}

#[test]
fn did_web_path_segments_come_back_out() {
    for segments in [vec![], vec!["a"], vec!["users", "alice"], vec!["x", "y", "z"]] {
        let path = if segments.is_empty() {
            None
        } else {
            Some(segments.join("/"))
        };
        let id = AgentIdentity::create(
            DidMethod::Web {
                host: "h.example".into(),
                path,
            },
            None,
        )
        .unwrap();
        let suffix = id.did().strip_prefix("did:web:").unwrap().to_string();
        let mut parts = suffix.split(':');
        assert_eq!(parts.next(), Some("h.example"));
        let recovered: Vec<&str> = parts.collect();
        assert_eq!(recovered, segments);
    }
}

#[test]
fn multibase_round_trips() {
    let bytes: Vec<u8> = (0u8..32).collect();
    let pk = PublicKey {
        algorithm: KeyAlgorithm::Ed25519,
        bytes: bytes.clone(),
    };
    let encoded = pk.to_multibase();
    assert!(encoded.starts_with('z'));
    let mut expected = vec![0xed, 0x01];
    expected.extend_from_slice(&bytes);
    assert_eq!(decode_multibase(&encoded).unwrap(), expected);
    assert_eq!(encoded, format!("z{}", bs58::encode(&expected).into_string()));

    let bytes: Vec<u8> = (0u8..33).collect();
    let pk = PublicKey {
        algorithm: KeyAlgorithm::P256,
        bytes: bytes.clone(),
    };
    let mut expected = vec![0x12, 0x00];
    expected.extend_from_slice(&bytes);
    assert_eq!(decode_multibase(&pk.to_multibase()).unwrap(), expected);

    assert!(decode_multibase("mAAAA").is_err());
    assert!(decode_multibase("z0OIl").is_err());
    assert_eq!(decode_multibase("z11").unwrap(), vec![0, 0]);
}

#[test]
fn keys_and_signatures_are_those_of_the_curve() {
    // A fixed key: its signature is what the curve's own implementation gives.
    let key = ed25519_dalek::SigningKey::from_bytes(&[7u8; 32]);
    let public = PublicKey {
        algorithm: KeyAlgorithm::Ed25519,
        bytes: key.verifying_key().to_bytes().to_vec(),
    };
    let sig = ed25519_dalek::Signer::sign(&key, b"msg").to_bytes();
    assert!(public.verify(b"msg", &sig).is_ok());
    assert!(public.verify(b"msh", &sig).is_err());
    let did = format!("did:key:{}", public.to_multibase());
    assert_eq!(PublicKey::from_did_key(&did).unwrap().bytes, public.bytes);
    // The same key signs the same message the same way.
    let id = AgentIdentity::create(DidMethod::Key, None).unwrap();
    assert_eq!(id.sign(b"a").unwrap(), id.sign(b"a").unwrap());
    assert_ne!(id.sign(b"a").unwrap(), id.sign(b"b").unwrap());
    assert_eq!(id.sign(b"a").unwrap().len(), 64);
}
