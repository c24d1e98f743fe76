//! Resolution of DIDs to documents: the [`DidResolver`] trait, a resolver over documents
//! held in memory, and a dispatcher over several resolvers.

use vstd::prelude::*;
use vstd::hash_map::*;
use vstd::string::*;
use crate::did;
use crate::did::{DidDocument, DocumentView};
use crate::error::{AgentCredsError, ErrorView};
use crate::text;

verus! {

/// The text that every DID of a method begins with.
pub open spec fn method_prefix(method: Seq<char>) -> Seq<char> {
    "did:"@ + method + ":"@
}

/// Abstraction for resolving DIDs to DID documents.
pub trait DidResolver: Send + Sync {
    /// Whether an answer is one that this resolver may give for a DID. A resolver that
    /// asks a network may give many.
    open spec fn may_resolve(
        &self,
        did: Seq<char>,
        answer: Result<DidDocument, AgentCredsError>,
    ) -> bool {
        true
    }

    /// Whether this resolver may say so when asked whether it handles a DID: as a rule, that it
    /// does if the DID begins with `did:<method>:`.
    open spec fn may_handle(&self, did: Seq<char>, answer: bool) -> bool {
        answer == text::begins(did, method_prefix(self.method_of()))
    }

    /// The DID method this resolver is for.
    open spec fn method_of(&self) -> Seq<char> {
        arbitrary()
    }

    /// Resolve a DID to its document.
    fn resolve(&self, did: &str) -> (r: Result<DidDocument, AgentCredsError>)
        ensures
            self.may_resolve(did@, r),
    ;

    /// Return the DID method handled by this resolver.
    fn method(&self) -> (r: &str)
        ensures
            r@ == self.method_of(),
    ;

    /// Return true if this resolver can handle the given DID. A resolver for all DIDs of its
    /// method answers with [`is_of_method`].
    fn handles(&self, did: &str) -> (r: bool)
        ensures
            self.may_handle(did@, r),
    ;
}

/// Whether a DID is of a method: whether it begins with `did:<method>:`.
pub fn is_of_method(did: &str, method: &str) -> (r: bool)
    ensures
        r == text::begins(did@, method_prefix(method@)),
{
    let mut prefix = "did:".to_owned();
    prefix.append(method);
    prefix.append(":");
    text::starts_with(did, prefix.as_str())
}

/// Resolver that routes requests to the first registered implementation that handles the
/// DID.
pub struct UniversalResolver {
    resolvers: Vec<Box<dyn DidResolver>>,
}

/// Whether the resolver at `k` is the first to claim `did`, going by what each may say: those
/// before it decline.
pub open spec fn first_to_claim(
    resolvers: Seq<Box<dyn DidResolver>>,
    did: Seq<char>,
    k: int,
) -> bool {
    &&& forall|j: int| 0 <= j < k ==> #[trigger] resolvers[j].may_handle(did, false)
    &&& k < resolvers.len() ==> resolvers[k].may_handle(did, true)
}

impl UniversalResolver {
    /// The registered resolvers, in order.
    pub closed spec fn delegates(&self) -> Seq<Box<dyn DidResolver>> {
        self.resolvers@
    }

    /// Create a new universal resolver from a list of delegates.
    pub fn new(resolvers: Vec<Box<dyn DidResolver>>) -> (r: Self)
        ensures
            r.delegates() == resolvers@,
    {
        UniversalResolver { resolvers }
    }

    /// Add a resolver instance.
    pub fn add_resolver(&mut self, resolver: Box<dyn DidResolver>)
        ensures
            final(self).delegates() == old(self).delegates().push(resolver),
            final(self).delegates().len() == old(self).delegates().len() + 1,
            forall|i: int|
                0 <= i < old(self).delegates().len() ==> #[trigger] final(self).delegates()[i]
                    == old(self).delegates()[i],
    {
        text::put_last(&mut self.resolvers, resolver);
    }
}

impl DidResolver for UniversalResolver {
    /// The answer of the first delegate to claim the DID, or a failure that names the DID.
    closed spec fn may_resolve(
        &self,
        did: Seq<char>,
        answer: Result<DidDocument, AgentCredsError>,
    ) -> bool {
        exists|k: int|
            0 <= k <= self.resolvers@.len() && #[trigger] first_to_claim(self.resolvers@, did, k)
                && (k == self.resolvers@.len() ==> answer is Err && answer->Err_0@
                == did::unresolved(did, "no resolver registered for this DID method"@))
    }

    open spec fn method_of(&self) -> Seq<char> {
        "universal"@
    }

    fn resolve(&self, did: &str) -> (r: Result<DidDocument, AgentCredsError>)
        ensures
            exists|k: int|
                0 <= k <= self.delegates().len() && #[trigger] first_to_claim(
                    self.delegates(),
                    did@,
                    k,
                ) && (k < self.delegates().len() ==> self.delegates()[k].may_resolve(did@, r)) && (k
                    == self.delegates().len() ==> r is Err && r->Err_0@ == did::unresolved(
                    did@,
                    "no resolver registered for this DID method"@,
                )),
    {
        for i in 0..self.resolvers.len()
            invariant
                forall|j: int|
                    0 <= j < i ==> #[trigger] self.resolvers@[j].may_handle(did@, false),
        {
            if self.resolvers[i].handles(did) {
                let r = self.resolvers[i].resolve(did);
                assert(first_to_claim(self.resolvers@, did@, i as int));
                assert(first_to_claim(self.delegates(), did@, i as int));
                return r;
            }
        }
        assert(first_to_claim(self.resolvers@, did@, self.resolvers@.len() as int));
        assert(first_to_claim(self.delegates(), did@, self.delegates().len() as int));
        Err(
            AgentCredsError::DidResolutionFailed {
                did: did.to_owned(),
                reason: "no resolver registered for this DID method".to_owned(),
            },
        )
    }

    fn method(&self) -> (r: &str) {
        "universal"
    }

    fn handles(&self, did: &str) -> (r: bool) {
        is_of_method(did, self.method())
    }
}

/// Resolver over documents held in memory, for tests, development, and local caching.
pub struct InMemoryResolver {
    docs: StringHashMap<DidDocument>,
}

impl View for InMemoryResolver {
    type V = Map<Seq<char>, DocumentView>;

    closed spec fn view(&self) -> Map<Seq<char>, DocumentView> {
        self.docs@.map_values(|d: DidDocument| d@)
    }
}

/// What looking a DID up in memory gives.
pub open spec fn memory_answer(docs: Map<Seq<char>, DocumentView>, did: Seq<char>) -> Result<
    DocumentView,
    ErrorView,
> {
    if docs.dom().contains(did) {
        Ok(docs[did])
    } else {
        Err(did::unresolved(did, "DID not found in memory resolver"@))
    }
}

/// A document result by view.
pub open spec fn document_result(r: Result<DidDocument, AgentCredsError>) -> Result<
    DocumentView,
    ErrorView,
> {
    match r {
        Ok(d) => Ok(d@),
        Err(e) => Err(e@),
    }
}

impl InMemoryResolver {
    /// Create a new, empty in-memory resolver.
    pub fn new() -> (r: Self)
        ensures
            r@ == Map::<Seq<char>, DocumentView>::empty(),
    {
        let r = InMemoryResolver { docs: StringHashMap::new() };
        assert(r@ =~= Map::<Seq<char>, DocumentView>::empty());
        r
    }

    /// Register a DID document to resolve later.
    pub fn register(&mut self, did: String, document: DidDocument)
        ensures
            final(self)@ == old(self)@.insert(did@, document@),
    {
        let ghost before = self@;
        self.docs.insert(did, document);
        assert(self@ =~= before.insert(did@, document@));
    }
}

impl DidResolver for InMemoryResolver {
    open spec fn may_resolve(
        &self,
        did: Seq<char>,
        answer: Result<DidDocument, AgentCredsError>,
    ) -> bool {
        document_result(answer) == memory_answer(self@, did)
    }

    open spec fn may_handle(&self, did: Seq<char>, answer: bool) -> bool {
        answer == self@.dom().contains(did)
    }

    open spec fn method_of(&self) -> Seq<char> {
        "memory"@
    }

    fn resolve(&self, did: &str) -> (r: Result<DidDocument, AgentCredsError>) {
        match self.docs.get(did) {
            Some(d) => Ok(d.clone()),
            None => Err(
                AgentCredsError::DidResolutionFailed {
                    did: did.to_owned(),
                    reason: "DID not found in memory resolver".to_owned(),
                },
            ),
        }
    }

    fn method(&self) -> (r: &str) {
        "memory"
    }

    fn handles(&self, did: &str) -> (r: bool)
        ensures
            r == self@.dom().contains(did@),
    {
        self.docs.contains_key(did)
    }
}

/// A document that was registered is what its DID resolves to, and no other DID resolves.
pub proof fn memory_resolves_what_was_registered(
    docs: Map<Seq<char>, DocumentView>,
    did: Seq<char>,
    document: DocumentView,
    other: Seq<char>,
)
    ensures
        memory_answer(docs.insert(did, document), did) == Ok::<DocumentView, ErrorView>(document),
        other != did ==> memory_answer(docs.insert(did, document), other) == memory_answer(
            docs,
            other,
        ),
        memory_answer(Map::<Seq<char>, DocumentView>::empty(), did) is Err,
        memory_answer(docs, did) is Err ==> memory_answer(docs, did)->Err_0 is DidResolutionFailed
            && !docs.dom().contains(did),
{
}

/// A DID is of a method exactly where it begins with `did:`, the method's name and a colon.
pub proof fn a_did_names_its_method(method: Seq<char>, rest: Seq<char>)
    ensures
        text::begins("did:"@ + method + ":"@ + rest, method_prefix(method)),
        method_prefix(method).len() == method.len() + 5,
{
    reveal_strlit("did:");
    reveal_strlit(":");
    let p = method_prefix(method);
    assert(("did:"@ + method + ":"@ + rest).take(p.len() as int) =~= p);
}

/// The resolver that answers is the first to claim the DID: all before it decline.
pub proof fn the_first_to_claim_answers(
    resolvers: Seq<Box<dyn DidResolver>>,
    did: Seq<char>,
    k: int,
    j: int,
)
    requires
        first_to_claim(resolvers, did, k),
        0 <= j < k,
    ensures
        resolvers[j].may_handle(did, false),
        k < resolvers.len() ==> resolvers[k].may_handle(did, true),
{
}

} // verus!
