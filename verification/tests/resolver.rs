use agentcreds_core::did::{
    is_of_method, DidDocument, DidResolver, InMemoryResolver, TrustAnchor, UniversalResolver,
};
use agentcreds_core::error::AgentCredsError;

struct Stub {
    method: &'static str,
    doc: DidDocument,
}

impl DidResolver for Stub {
    fn resolve(&self, _did: &str) -> Result<DidDocument, AgentCredsError> {
        Ok(self.doc.clone())
    }
    fn method(&self) -> &str {
        self.method
    }
    fn handles(&self, did: &str) -> bool {
        is_of_method(did, self.method)
    }
}

fn a_document() -> DidDocument {
    TrustAnchor::generate().unwrap().document().clone()
}

fn stub(method: &'static str) -> Box<dyn DidResolver> {
    Box::new(Stub {
        method,
        doc: a_document(),
    })
}

#[test]
fn the_default_handles_matches_the_method_prefix_exactly() {
    let web = Stub {
        method: "web",
        doc: a_document(),
    };
    assert!(web.handles("did:web:example.com"));
    assert!(!web.handles("did:key:z6Mk"));
    assert!(
        !web.handles("did:webfoo:example.com"),
        "a longer method name must not be captured by a shorter one"
    );
    assert!(!web.handles("did:web"), "the trailing colon is required");
    assert!(!web.handles("web:example.com"));
}

#[test]
fn the_universal_resolver_routes_to_the_delegate_that_handles_the_method() {
    let r = UniversalResolver::new(vec![stub("web"), stub("cheqd")]);
    assert!(r.resolve("did:web:example.com").is_ok());
    assert!(r.resolve("did:cheqd:testnet:abc").is_ok());
    assert_eq!(r.method(), "universal");
}

#[test]
fn an_unregistered_method_is_refused_and_the_error_names_the_did() {
    let r = UniversalResolver::new(vec![stub("web")]);
    match r.resolve("did:indy:sovrin:xyz") {
        Err(AgentCredsError::DidResolutionFailed { did, reason }) => {
            assert_eq!(did, "did:indy:sovrin:xyz");
            assert!(
                reason.contains("no resolver"),
                "the reason must say why: {reason}"
            );
        }
        other => panic!("an unroutable DID must be refused: {other:?}"),
    }
    assert!(UniversalResolver::new(vec![]).resolve("did:web:x").is_err());
}

#[test]
fn add_resolver_extends_a_live_dispatcher() {
    let mut r = UniversalResolver::new(vec![]);
    assert!(r.resolve("did:web:example.com").is_err());
    r.add_resolver(stub("web"));
    assert!(
        r.resolve("did:web:example.com").is_ok(),
        "a resolver added after construction must take effect"
    );
}

#[test]
fn the_first_registered_handler_wins() {
    let first = a_document();
    let second = a_document();
    assert_ne!(first.id, second.id, "the two stubs must be distinguishable");

    let r = UniversalResolver::new(vec![
        Box::new(Stub {
            method: "web",
            doc: first.clone(),
        }),
        Box::new(Stub {
            method: "web",
            doc: second,
        }),
    ]);
    assert_eq!(
        r.resolve("did:web:example.com").unwrap().id,
        first.id,
        "the earlier registration must win"
    );
}

#[test]
fn the_in_memory_resolver_only_claims_dids_it_actually_holds() {
    let doc = a_document();
    let did = doc.id.clone();
    let mut mem = InMemoryResolver::new();

    assert!(!mem.handles(&did), "an empty resolver claims nothing");
    mem.register(did.clone(), doc.clone());
    assert!(mem.handles(&did));
    assert!(!mem.handles("did:key:zNotRegistered"));
    assert_eq!(mem.method(), "memory");
    assert_eq!(mem.resolve(&did).unwrap().id, doc.id);

    match mem.resolve("did:key:zNotRegistered") {
        Err(AgentCredsError::DidResolutionFailed { did, .. }) => {
            assert_eq!(did, "did:key:zNotRegistered");
        }
        other => panic!("an unknown DID must be refused: {other:?}"),
    }
}

#[test]
fn an_in_memory_miss_does_not_shadow_a_later_resolver() {
    let served = a_document();
    let r = UniversalResolver::new(vec![
        Box::new(InMemoryResolver::new()),
        Box::new(Stub {
            method: "web",
            doc: served.clone(),
        }),
    ]);
    assert_eq!(
        r.resolve("did:web:example.com").unwrap().id,
        served.id,
        "an empty in-memory resolver must decline rather than swallow the request"
    );
}
