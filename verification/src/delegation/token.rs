//! Delegation tokens: minted from a credential, narrowed from hop to hop, and verified
//! where they are used.

use vstd::prelude::*;
use vstd::string::*;
use crate::approval;
use crate::approval::{ApprovalEvidence, ApproverDirectory, Gate};
use crate::crypto;
use crate::delegation::action::{Action, ActionView};
use crate::delegation::biscuit;
use crate::delegation::datalog;
use crate::delegation::datalog::{BlockView, FactView, PolicyView};
use crate::delegation::hop;
use crate::delegation::hop::{DelegationChain, Hop, HopView, TokenView};
use crate::delegation::plan;
use crate::delegation::reading;
use crate::delegation::rules;
use crate::delegation::scope::{Scope, ScopeView};
use crate::did;
use crate::did::resolver::DidResolver;
use crate::did::{AgentIdentity, DidDocument, KeyView, TrustAnchor};
use crate::encoding;
use crate::error::{AgentCredsError, ErrorView};
use crate::strings;
use crate::text;
use crate::time;
use crate::time::Timestamp;
use crate::vc;
use crate::vc::{CapabilityCredential, CredentialView};

verus! {

/// A multi-hop delegation token: a Biscuit whose scope is Datalog, with an identity proof
/// for each hop.
///
/// A scope can only narrow from hop to hop: a hop adds checks and takes none away. What the
/// token reports of itself is read from the signed bytes.
#[derive(Debug)]
pub struct DelegationToken {
    biscuit: Vec<u8>,
    hops: Vec<Hop>,
    vc_id: String,
    issuer: String,
    subject: String,
    root_tools: Vec<String>,
    root_budget: Option<u32>,
    max_action_cost: Option<u32>,
    root_max_depth: u32,
    principal: Option<String>,
    root_resources: Vec<String>,
    gates: Vec<Gate>,
}

/// What travels of a token: the Biscuit and the hops. All else is read from the Biscuit when
/// the token is taken in.
#[derive(Debug)]
pub struct DelegationTokenWire {
    /// The serialized Biscuit.
    pub biscuit: Vec<u8>,
    /// The hops.
    pub hops: Vec<Hop>,
}

impl View for DelegationToken {
    type V = TokenView;

    closed spec fn view(&self) -> TokenView {
        TokenView {
            biscuit: self.biscuit@,
            hops: hop::hop_views(self.hops@),
            vc_id: self.vc_id@,
            issuer: self.issuer@,
            subject: self.subject@,
            root_tools: text::views(self.root_tools@),
            root_budget: self.root_budget,
            max_action_cost: self.max_action_cost,
            root_max_depth: self.root_max_depth,
            principal: text::opt_view(self.principal),
            root_resources: text::views(self.root_resources@),
            gates: approval::gate_views(self.gates@),
        }
    }
}

impl Clone for DelegationToken {
    fn clone(&self) -> (r: Self)
        ensures
            r@ == self@,
    {
        proof {
            use_type_invariant(self);
        }
        DelegationToken {
            biscuit: encoding::bytes_clone(self.biscuit.as_slice()),
            hops: hop::hops_clone(&self.hops),
            vc_id: self.vc_id.clone(),
            issuer: self.issuer.clone(),
            subject: self.subject.clone(),
            root_tools: text::strings_clone(&self.root_tools),
            root_budget: self.root_budget,
            max_action_cost: self.max_action_cost,
            root_max_depth: self.root_max_depth,
            principal: text::opt_clone(&self.principal),
            root_resources: text::strings_clone(&self.root_resources),
            gates: approval::gates_clone(&self.gates),
        }
    }
}

impl Clone for DelegationTokenWire {
    fn clone(&self) -> (r: Self)
        ensures
            r.biscuit@ == self.biscuit@,
            hop::hop_views(r.hops@) == hop::hop_views(self.hops@),
    {
        DelegationTokenWire {
            biscuit: encoding::bytes_clone(self.biscuit.as_slice()),
            hops: hop::hops_clone(&self.hops),
        }
    }
}

// -- Identity -----------------------------------------------------------------------------------

/// Whether checking a hop's attestation can give a result: under the key in a `did:key`, or
/// the key of a document that the resolver may give.
pub open spec fn hop_attestation(
    h: HopView,
    resolver: Option<&dyn DidResolver>,
    r: Result<(), ErrorView>,
) -> bool {
    if text::begins(h.agent_did, "did:key:"@) {
        r == did::attested_by(did::did_key_of(h.agent_did), h.delegation_public, h.attestation)
    } else if resolver is None {
        r == Err::<(), ErrorView>(
            ErrorView::ResolverRequired { method: did::method_name(h.agent_did) },
        )
    } else {
        exists|answer: Result<DidDocument, AgentCredsError>| #[trigger]
            resolver->0.may_resolve(h.agent_did, answer) && r == did::attested_by(
                match answer {
                    Ok(doc) => did::document_key(h.agent_did, doc@),
                    Err(e) => Err(e@),
                },
                h.delegation_public,
                h.attestation,
            )
    }
}

/// What holding block `k`'s signer against a hop gives. The authority block has no third
/// party: it is signed by the key that the token was decoded under.
pub open spec fn signer_check(k: int, h: HopView, signer: Option<Seq<u8>>) -> Result<
    (),
    ErrorView,
> {
    if k == 0 {
        Ok(())
    } else {
        match signer {
            None => Err(
                plan::broken(
                    "block "@ + text::decimal(k as nat) + " is not a third-party block"@,
                ),
            ),
            Some(s) => if s != h.delegation_public {
                Err(
                    plan::broken(
                        "block "@ + text::decimal(k as nat)
                            + " signer does not match the hop delegation key"@,
                    ),
                )
            } else {
                Ok(())
            },
        }
    }
}

/// Why the hops of a token cannot be those of its blocks, apart from attestations and
/// signers.
pub open spec fn chain_error(t: TokenView, blocks: Seq<BlockView>) -> Option<ErrorView> {
    if blocks.len() != t.hops.len() {
        Some(
            plan::broken(
                "block count "@ + text::decimal(blocks.len()) + " does not match hop count "@
                    + text::decimal(t.hops.len()),
            ),
        )
    } else if t.subject != t.hops[0].agent_did {
        Some(plan::broken("authority subject does not match root signer DID"@))
    } else {
        None
    }
}

/// Whether hop `k` of a token is attested and signed its block.
pub open spec fn hop_proved(
    t: TokenView,
    blocks: Seq<BlockView>,
    resolver: Option<&dyn DidResolver>,
    k: int,
) -> bool {
    hop_attestation(t.hops[k], resolver, Ok(())) && signer_check(
        k,
        t.hops[k],
        blocks[k].signer,
    ) is Ok
}

/// Whether checking hop `k` of a token can give an error.
pub open spec fn hop_fails(
    t: TokenView,
    blocks: Seq<BlockView>,
    resolver: Option<&dyn DidResolver>,
    k: int,
    e: ErrorView,
) -> bool {
    hop_attestation(t.hops[k], resolver, Err(e)) || (hop_attestation(t.hops[k], resolver, Ok(()))
        && signer_check(k, t.hops[k], blocks[k].signer) == Err::<(), ErrorView>(e))
}

/// Whether checking the identities of a token's hops can give a result: `Ok` only where all
/// hops are proved, and otherwise the error of the first that is not. Without a resolver,
/// and for `did:key` hops in any case, there is one possible result.
pub open spec fn identity_outcome(
    t: TokenView,
    resolver: Option<&dyn DidResolver>,
    r: Result<(), ErrorView>,
) -> bool {
    let blocks = reading::contents(t);
    match chain_error(t, blocks) {
        Some(e) => r == Err::<(), ErrorView>(e),
        None => match r {
            Ok(_) => forall|k: int|
                0 <= k < t.hops.len() ==> #[trigger] hop_proved(t, blocks, resolver, k),
            Err(e) => exists|k: int|
                {
                    &&& 0 <= k < t.hops.len()
                    &&& #[trigger] hop_fails(t, blocks, resolver, k, e)
                    &&& forall|j: int| 0 <= j < k ==> #[trigger] hop_proved(t, blocks, resolver, j)
                },
        },
    }
}

// -- Authorization ------------------------------------------------------------------------------

/// The facts of a request at a time.
pub open spec fn request_of(a: ActionView, now: int) -> Seq<FactView> {
    seq![
        datalog::date_fact("time"@, time::second_of(now)),
        datalog::str_fact("operation"@, a.tool),
    ] + (match a.resource {
        Some(x) => seq![datalog::str_fact("resource"@, x)],
        None => Seq::<FactView>::empty(),
    }) + plan::opt_int_fact("action_cost"@, a.cost) + (match a.acting_for {
        Some(x) => seq![datalog::str_fact("acting_for"@, x)],
        None => Seq::<FactView>::empty(),
    })
}

/// The first text of a request that may not stand in a Datalog string term.
pub open spec fn request_unsafe(a: ActionView) -> Option<Seq<char>> {
    if !datalog::safe_text(a.tool) {
        Some(a.tool)
    } else if a.resource is Some && !datalog::safe_text(a.resource->0) {
        a.resource
    } else if a.acting_for is Some && !datalog::safe_text(a.acting_for->0) {
        a.acting_for
    } else {
        None
    }
}

/// What a request hands to an authorizer.
pub struct RequestPlan {
    /// The texts of its facts.
    pub facts: Vec<String>,
    /// The text of its policy.
    pub policy: String,
}

/// What the request for an action at a time hands to an authorizer: the time, the operation,
/// and the resource, the cost and the principal acted for where there are any, under a policy
/// that allows what the checks let through.
///
/// # Errors
/// `OutOfBounds` for the first text that may not stand in a Datalog term.
pub fn request_plan(action: &Action, now: Timestamp) -> (r: Result<RequestPlan, AgentCredsError>)
    ensures
        match (r, request_unsafe(action@)) {
            (Ok(p), None) => {
                &&& text::views(p.facts@) == datalog::fact_texts(request_of(action@, now@))
                &&& p.policy@ == datalog::policy_text(PolicyView::Allow)
            },
            (Err(e), Some(s)) => e@ == datalog::unsafe_text(s),
            _ => false,
        },
{
    let mut facts: Vec<String> = Vec::new();
    let ghost mut want = Seq::<FactView>::empty();
    facts.push(datalog::time_fact("time", &now));
    proof {
        want = want.push(datalog::date_fact("time"@, time::second_of(now@)));
    }
    match datalog::string_fact("operation", action.tool.as_str()) {
        Ok(f) => facts.push(f),
        Err(e) => {
            return Err(e);
        },
    }
    proof {
        want = want.push(datalog::str_fact("operation"@, action@.tool));
    }
    if let Some(x) = &action.resource {
        match datalog::string_fact("resource", x.as_str()) {
            Ok(f) => facts.push(f),
            Err(e) => {
                return Err(e);
            },
        }
        proof {
            want = want.push(datalog::str_fact("resource"@, x@));
        }
    }
    if let Some(cost) = action.cost {
        facts.push(datalog::number_fact("action_cost", cost));
        proof {
            want = want.push(datalog::int_fact("action_cost"@, cost as int));
        }
    }
    if let Some(x) = &action.acting_for {
        match datalog::string_fact("acting_for", x.as_str()) {
            Ok(f) => facts.push(f),
            Err(e) => {
                return Err(e);
            },
        }
        proof {
            want = want.push(datalog::str_fact("acting_for"@, x@));
        }
    }
    assert(want =~= request_of(action@, now@));
    assert(text::views(facts@) =~= datalog::fact_texts(want));
    Ok(RequestPlan { facts, policy: "allow if true".to_owned() })
}

proof fn lemma_request_writable(a: ActionView, now: int)
    requires
        request_unsafe(a) is None,
        datalog::dateable(time::second_of(now)),
    ensures
        forall|i: int|
            0 <= i < request_of(a, now).len() ==> datalog::writable_fact(
                #[trigger] request_of(a, now)[i],
            ),
{
    plan::lemma_names();
}

/// What an authorizer's answer gives for an action.
pub open spec fn answered(a: ActionView, answer: Result<(), Seq<char>>) -> Result<(), ErrorView> {
    match answer {
        Ok(_) => Ok(()),
        Err(reason) => Err(rules::denied(a, reason)),
    }
}

/// Whether a result is what an authorizer gives that runs over a request's facts, the one
/// policy `allow if true` and a token's blocks: its answer, or the error of building it.
pub open spec fn authorizer_gave(
    a: ActionView,
    request: Seq<FactView>,
    blocks: Seq<BlockView>,
    r: Result<(), ErrorView>,
) -> bool {
    let policies = seq![PolicyView::Allow];
    ||| exists|answer: Result<(), Seq<char>>|
        #[trigger] biscuit::may_answer(
            request,
            policies,
            blocks,
            reading::AUTHORIZER_MAX_SECS,
            answer,
        ) && r == answered(a, answer)
    ||| exists|message: Seq<char>|
        #[trigger] biscuit::may_refuse(request, policies, blocks, message) && r == Err::<
            (),
            ErrorView,
        >(plan::broken(message))
}

/// Whether evaluating a token's Datalog for an action can give a result: an error for a time
/// that has no Datalog date, an error for a text that may not stand in a term, and otherwise
/// what the authorizer gives, which is `Ok` only where every check holds.
pub open spec fn datalog_outcome(
    t: TokenView,
    a: ActionView,
    now: int,
    r: Result<(), ErrorView>,
) -> bool {
    if !datalog::dateable(time::second_of(now)) {
        r is Err && r->Err_0 is InvalidBiscuitSignature
    } else {
        match request_unsafe(a) {
            Some(s) => r == Err::<(), ErrorView>(datalog::unsafe_text(s)),
            None => {
                &&& authorizer_gave(a, request_of(a, now), reading::contents(t), r)
                &&& r is Ok ==> datalog::permitted(request_of(a, now), reading::contents(t))
            },
        }
    }
}

/// Whether verifying a token for an action at a time can give a result.
pub open spec fn verify_outcome(
    t: TokenView,
    a: ActionView,
    resolver: Option<&dyn DidResolver>,
    now: int,
    r: Result<(), ErrorView>,
) -> bool {
    if identity_outcome(t, resolver, r) && r is Err {
        true
    } else {
        &&& identity_outcome(t, resolver, Ok(()))
        &&& match rules::use_refused(t, a, now) {
            Some(e) => r == Err::<(), ErrorView>(e),
            None => datalog_outcome(t, a, now, r),
        }
    }
}

/// Whether verifying a token against its credential and an anchor can give a result.
pub open spec fn rooted_outcome(
    t: TokenView,
    a: ActionView,
    c: CredentialView,
    anchor_did: Seq<char>,
    anchor_key: KeyView,
    resolver: Option<&dyn DidResolver>,
    now: int,
    r: Result<(), ErrorView>,
) -> bool {
    match vc::credential_verifies(c, anchor_did, anchor_key, true, now) {
        Err(e) => r == Err::<(), ErrorView>(e),
        Ok(_) => if !rules::rooted_in(t, c) {
            r is Err && rules::root_refused(t, c, r->Err_0)
        } else {
            verify_outcome(t, a, resolver, now, r)
        },
    }
}

// -- Minting and narrowing ------------------------------------------------------------------------

/// A token result by view.
pub open spec fn token_view(r: Result<DelegationToken, AgentCredsError>) -> Result<
    TokenView,
    ErrorView,
> {
    match r {
        Ok(t) => Ok(t@),
        Err(e) => Err(e@),
    }
}

/// The hop of an agent that was given a scope.
pub open spec fn hop_of(
    agent_did: Seq<char>,
    key: Seq<u8>,
    attestation: Seq<u8>,
    s: ScopeView,
    now: int,
    expires_at: int,
    depth: u32,
) -> HopView {
    HopView {
        agent_did,
        delegation_public: key,
        attestation,
        tools: strings::listing(s.tools),
        resources: strings::listing(s.resources),
        budget_usd: s.budget_usd,
        max_action_cost: s.max_action_cost,
        issued_at: now,
        expires_at,
        depth,
    }
}

/// Whether a token is one minted for a scope of a credential: its one hop is the agent's, its
/// one block is the authority block, its expiry has a Datalog date, and it is open to more
/// blocks.
pub open spec fn minted(
    t: TokenView,
    c: CredentialView,
    s: ScopeView,
    ttl_secs: u64,
    agent_did: Seq<char>,
    key: Seq<u8>,
    attestation: Seq<u8>,
    now: int,
) -> bool {
    let expires_at = rules::mint_expiry(c, ttl_secs, now);
    &&& reading::readable(t)
    &&& t.hops == seq![hop_of(agent_did, key, attestation, s, now, expires_at, 0)]
    &&& t.hops[0].tools.to_set() == s.tools
    &&& t.hops[0].resources.to_set() == s.resources
    &&& datalog::dateable(time::second_of(expires_at))
    &&& reading::contents(t) == seq![plan::mint_block(c, s, expires_at)]
    &&& !biscuit::bytes_sealed(t.biscuit)
}

/// Whether minting can give a result: a refusal where the rules refuse, an error for a text
/// that may not stand in a term or an expiry that has no Datalog date, and otherwise the token,
/// or an error of Biscuit.
pub open spec fn mint_outcome(
    c: CredentialView,
    s: ScopeView,
    ttl_secs: u64,
    agent_did: Seq<char>,
    key: Seq<u8>,
    attestation: Seq<u8>,
    now: int,
    r: Result<TokenView, ErrorView>,
) -> bool {
    if !rules::mint_allowed(c, s, ttl_secs, agent_did, now) {
        r is Err && rules::mint_refused(c, s, ttl_secs, agent_did, now, r->Err_0)
    } else {
        let head = plan::mint_head_unsafe(c, s);
        let expires_at = rules::mint_expiry(c, ttl_secs, now);
        let tail = plan::mint_tail_unsafe(c, s);
        if plan::writable(head, expires_at, tail) {
            match r {
                Ok(t) => minted(t, c, s, ttl_secs, agent_did, key, attestation, now),
                Err(e) => e is InvalidBiscuitSignature,
            }
        } else {
            r is Err && plan::unwritable(head, expires_at, tail, r->Err_0)
        }
    }
}

/// Whether a token is another narrowed to a scope for an agent: one more hop, one more block,
/// an expiry that has a Datalog date, and still open to more blocks.
pub open spec fn narrowed(
    child: TokenView,
    parent: TokenView,
    s: ScopeView,
    ttl_secs: u64,
    agent_did: Seq<char>,
    key: Seq<u8>,
    attestation: Seq<u8>,
    now: int,
) -> bool {
    let leaf = parent.hops.last();
    let expires_at = rules::hop_expiry(leaf.expires_at, ttl_secs, now);
    &&& reading::readable(child)
    &&& child.hops == parent.hops.push(
        hop_of(agent_did, key, attestation, s, now, expires_at, rules::next_depth(leaf.depth)),
    )
    &&& child.hops.last().tools.to_set() == s.tools
    &&& child.hops.last().resources.to_set() == s.resources
    &&& datalog::dateable(time::second_of(expires_at))
    &&& reading::contents(child) == reading::contents(parent).push(
        plan::hop_block(agent_did, key, s, expires_at),
    )
    &&& !biscuit::bytes_sealed(child.biscuit)
}

/// The error for narrowing a sealed token.
pub open spec fn sealed_error() -> ErrorView {
    plan::broken("tried to append a block to a sealed token"@)
}

/// Whether narrowing a token can give a result: a refusal where the rules refuse, an error for a
/// sealed token, an error for a text that may not stand in a term or an expiry that has no
/// Datalog date, and otherwise the token, or an error of Biscuit.
pub open spec fn attenuate_outcome(
    parent: TokenView,
    s: ScopeView,
    ttl_secs: u64,
    agent_did: Seq<char>,
    key: Seq<u8>,
    attestation: Seq<u8>,
    now: int,
    r: Result<TokenView, ErrorView>,
) -> bool {
    if !rules::narrow_allowed(parent, s) {
        r is Err && rules::narrow_refused(parent, s, r->Err_0)
    } else {
        let head = plan::hop_head_unsafe(agent_did, s);
        let expires_at = rules::hop_expiry(parent.hops.last().expires_at, ttl_secs, now);
        let tail = plan::hop_tail_unsafe(s);
        if biscuit::bytes_sealed(parent.biscuit) {
            r == Err::<TokenView, ErrorView>(sealed_error())
        } else if plan::writable(head, expires_at, tail) {
            match r {
                Ok(t) => narrowed(t, parent, s, ttl_secs, agent_did, key, attestation, now),
                Err(e) => e is InvalidBiscuitSignature,
            }
        } else {
            r is Err && plan::unwritable(head, expires_at, tail, r->Err_0)
        }
    }
}

/// The content binding of a token's leaf.
pub open spec fn leaf_binding_of(t: TokenView) -> Seq<char> {
    crypto::hex_text(crypto::sha256_digest(t.biscuit))
}

/// A result of identifiers by view.
pub open spec fn ids_view(r: Result<Vec<String>, AgentCredsError>) -> Result<
    Seq<Seq<char>>,
    ErrorView,
> {
    match r {
        Ok(v) => Ok(text::views(v@)),
        Err(e) => Err(e@),
    }
}

/// Whether the gated check of a token can give a result, where the rooted check gave
/// `rooted`: an error of the rooted check stands, and otherwise the gates in force decide.
pub open spec fn gated_outcome(
    t: TokenView,
    c: CredentialView,
    evidence: Seq<approval::EvidenceView>,
    recognized: Seq<Seq<char>>,
    g: rules::GateSetting,
    rooted: Result<(), ErrorView>,
    r: Result<Seq<Seq<char>>, ErrorView>,
) -> bool {
    &&& exists|now: int| #[trigger]
        rooted_outcome(t, g.action, c, g.anchor_did, g.anchor_key, None, now, rooted)
    &&& match rooted {
        Err(e) => r == Err::<Seq<Seq<char>>, ErrorView>(e),
        Ok(_) => r == rules::gates_outcome(
            rules::effective_gates(t.gates, c.claims.required_gates, g.action.tool),
            evidence,
            recognized,
            g,
        ),
    }
}

/// What an authorizer's answer means for an action: a refusal denies it, with its reason.
pub fn authorization_result(answer: Result<(), String>, action: &Action) -> (r: Result<
    (),
    AgentCredsError,
>)
    ensures
        match answer {
            Ok(_) => r is Ok,
            Err(reason) => r is Err && r->Err_0@ == rules::denied(action@, reason@),
        },
{
    match answer {
        Ok(_) => Ok(()),
        Err(reason) => Err(
            AgentCredsError::ActionDenied { action: action.tool.clone(), reason },
        ),
    }
}

impl DelegationToken {
    #[verifier::type_invariant]
    spec fn sound(&self) -> bool {
        reading::readable(self@)
    }

    /// Takes in a Biscuit with its hops, reading all else from the Biscuit.
    ///
    /// # Errors
    /// `InvalidBiscuitSignature` for an empty chain, bytes that do not decode under the first
    /// hop's delegation key, or a missing fact; `InvalidKeyMaterial` where that key does not
    /// decode.
    pub fn from_wire(w: DelegationTokenWire) -> (r: Result<Self, AgentCredsError>)
        ensures
            w.hops@.len() == 0 ==> r is Err && r->Err_0@ == plan::broken("empty token chain"@),
            w.hops@.len() > 0 ==> match reading::decode_error(
                w.biscuit@,
                w.hops@[0].delegation_public@,
            ) {
                Some(e) => r is Err && r->Err_0@ == e,
                None => r is Err ==> r->Err_0@ is InvalidBiscuitSignature,
            },
            r is Ok ==> {
                &&& r->Ok_0@.biscuit == w.biscuit@
                &&& r->Ok_0@.hops == hop::hop_views(w.hops@)
                &&& reading::readable(r->Ok_0@)
            },
    {
        if w.hops.len() == 0 {
            return Err(plan::bad_biscuit("empty token chain".to_owned()));
        }
        let decoded = match reading::decode_token(
            w.biscuit.as_slice(),
            w.hops[0].delegation_public.as_slice(),
        ) {
            Ok(t) => t,
            Err(e) => {
                return Err(e);
            },
        };
        let read = match reading::read_blocks(&decoded) {
            Ok(x) => x,
            Err(e) => {
                return Err(e);
            },
        };
        let ghost shown = read.of(
            TokenView {
                biscuit: w.biscuit@,
                hops: hop::hop_views(w.hops@),
                vc_id: read.vc_id@,
                issuer: read.issuer@,
                subject: read.subject@,
                root_tools: text::views(read.root_tools@),
                root_budget: read.root_budget,
                max_action_cost: read.max_action_cost,
                root_max_depth: read.root_max_depth,
                principal: text::opt_view(read.principal),
                root_resources: text::views(read.root_resources@),
                gates: approval::gate_views(read.gates@),
            },
        );
        assert(reading::read_from(shown, biscuit::token_blocks(decoded)));
        assert(shown.hops[0] == w.hops@[0]@);
        assert(reading::readable(shown));
        Ok(
            DelegationToken {
                biscuit: w.biscuit,
                hops: w.hops,
                vc_id: read.vc_id,
                issuer: read.issuer,
                subject: read.subject,
                root_tools: read.root_tools,
                root_budget: read.root_budget,
                max_action_cost: read.max_action_cost,
                root_max_depth: read.root_max_depth,
                principal: read.principal,
                root_resources: read.root_resources,
                gates: read.gates,
            },
        )
    }

    /// What travels of the token.
    pub fn to_wire(&self) -> (r: DelegationTokenWire)
        ensures
            r.biscuit@ == self@.biscuit,
            hop::hop_views(r.hops@) == self@.hops,
    {
        DelegationTokenWire {
            biscuit: encoding::bytes_clone(self.biscuit.as_slice()),
            hops: hop::hops_clone(&self.hops),
        }
    }

    /// Current delegation depth (0 = not delegated).
    pub fn depth(&self) -> (r: u32)
        ensures
            r == hop::depth_of(self@.hops),
    {
        proof {
            use_type_invariant(self);
        }
        assert(self@.hops.len() == self.hops@.len());
        (self.hops.len() - 1) as u32
    }

    /// Decodes the Biscuit, which checks the whole signature chain, and checks that every
    /// hop's block signer matches its attested agent DID.
    fn parse_and_check_identity(&self, resolver: Option<&dyn DidResolver>) -> (r: Result<
        biscuit_auth::Biscuit,
        AgentCredsError,
    >)
        ensures
            match r {
                Ok(b) => identity_outcome(self@, resolver, Ok(())) && biscuit::token_blocks(b)
                    == reading::contents(self@),
                Err(e) => identity_outcome(self@, resolver, Err(e@)),
            },
    {
        proof {
            use_type_invariant(self);
        }
        let ghost t = self@;
        assert(t.hops.len() == self.hops@.len());
        assert(t.hops[0] == self.hops@[0]@);
        let b = match reading::decode_token(
            self.biscuit.as_slice(),
            self.hops[0].delegation_public.as_slice(),
        ) {
            Ok(b) => b,
            Err(e) => {
                return Err(e);
            },
        };
        let ghost blocks = biscuit::token_blocks(b);
        let count = biscuit::block_count(&b);
        if count != self.hops.len() {
            let mut reason = "block count ".to_owned();
            reason.append(text::u64_text(count as u64).as_str());
            reason.append(" does not match hop count ");
            reason.append(text::u64_text(self.hops.len() as u64).as_str());
            return Err(plan::bad_biscuit(reason));
        }
        if !text::str_eq(self.subject.as_str(), self.hops[0].agent_did.as_str()) {
            return Err(
                plan::bad_biscuit("authority subject does not match root signer DID".to_owned()),
            );
        }
        let external = biscuit::external_keys(&b);
        for k in 0..self.hops.len()
            invariant
                t == self@,
                t.hops == hop::hop_views(self.hops@),
                blocks == reading::contents(t),
                blocks.len() == t.hops.len(),
                external@.len() == blocks.len(),
                chain_error(t, blocks) is None,
                forall|i: int|
                    0 <= i < external@.len() ==> match #[trigger] external@[i] {
                        Some(x) => blocks[i].signer == Some(x@),
                        None => blocks[i].signer is None,
                    },
                forall|j: int| 0 <= j < k ==> #[trigger] hop_proved(t, blocks, resolver, j),
        {
            let h = &self.hops[k];
            assert(t.hops[k as int] == h@);
            let attested = did::verify_delegation_attestation_resolved(
                h.agent_did.as_str(),
                h.delegation_public.as_slice(),
                h.attestation.as_slice(),
                resolver,
            );
            assert(hop_attestation(h@, resolver, did::unit_view(attested)));
            match attested {
                Ok(_) => {},
                Err(e) => {
                    assert(hop_fails(t, blocks, resolver, k as int, e@));
                    return Err(e);
                },
            }
            if k > 0 {
                match &external[k] {
                    None => {
                        let mut reason = "block ".to_owned();
                        reason.append(text::u64_text(k as u64).as_str());
                        reason.append(" is not a third-party block");
                        let e = plan::bad_biscuit(reason);
                        assert(hop_fails(t, blocks, resolver, k as int, e@));
                        return Err(e);
                    },
                    Some(s) => {
                        if !text::bytes_eq(s.as_slice(), h.delegation_public.as_slice()) {
                            let mut reason = "block ".to_owned();
                            reason.append(text::u64_text(k as u64).as_str());
                            reason.append(" signer does not match the hop delegation key");
                            let e = plan::bad_biscuit(reason);
                            assert(hop_fails(t, blocks, resolver, k as int, e@));
                            return Err(e);
                        }
                    },
                }
            }
            assert(hop_proved(t, blocks, resolver, k as int));
        }
        Ok(b)
    }

    /// Evaluates the token's Datalog for an action at a time.
    fn authorize_action(&self, b: &biscuit_auth::Biscuit, action: &Action, now: Timestamp) -> (r:
        Result<(), AgentCredsError>)
        requires
            biscuit::token_blocks(*b) == reading::contents(self@),
        ensures
            datalog_outcome(self@, action@, now@, did::unit_view(r)),
    {
        let ghost a = action@;
        let ghost all = request_of(a, now@);
        let ghost blocks = reading::contents(self@);
        let ghost at = datalog::date_fact("time"@, time::second_of(now@));
        proof {
            plan::lemma_names();
            if datalog::dateable(time::second_of(now@)) {
                assert(datalog::writable_fact(at));
            }
        }
        let mut q = biscuit::new_request(reading::AUTHORIZER_MAX_SECS);
        q = match biscuit::request_fact(q, datalog::time_fact("time", &now).as_str()) {
            Ok(x) => x,
            Err(e) => {
                return Err(plan::bad_biscuit(e));
            },
        };
        assert(datalog::dateable(time::second_of(now@)));
        assert(biscuit::request_facts(q) =~= seq![at]);
        let plan = match request_plan(action, now) {
            Ok(p) => p,
            Err(e) => {
                return Err(e);
            },
        };
        proof {
            lemma_request_writable(a, now@);
        }
        assert(all.take(1) =~= seq![at]);
        assert(text::views(plan.facts@).len() == datalog::fact_texts(all).len());
        for i in 1..plan.facts.len()
            invariant
                all == request_of(a, now@),
                plan.facts@.len() == all.len(),
                text::views(plan.facts@) == datalog::fact_texts(all),
                request_unsafe(a) is None,
                datalog::dateable(time::second_of(now@)),
                forall|k: int| 0 <= k < all.len() ==> datalog::writable_fact(#[trigger] all[k]),
                biscuit::request_facts(q) == all.take(i as int),
                biscuit::request_policies(q) == Seq::<PolicyView>::empty(),
                biscuit::request_limit(q) == reading::AUTHORIZER_MAX_SECS,
                a == action@,
        {
            let fact = plan.facts[i].as_str();
            assert(text::views(plan.facts@)[i as int] == fact@);
            assert(datalog::fact_texts(all)[i as int] == datalog::fact_text(all[i as int]));
            assert(all.take(i + 1) =~= all.take(i as int).push(all[i as int]));
            q = match biscuit::request_fact(q, fact) {
                Ok(x) => x,
                Err(e) => {
                    return Err(plan::bad_biscuit(e));
                },
            };
        }
        assert(all.take(all.len() as int) =~= all);
        q = match biscuit::request_policy(q, plan.policy.as_str()) {
            Ok(x) => x,
            Err(e) => {
                return Err(plan::bad_biscuit(e));
            },
        };
        assert(biscuit::request_policies(q) =~= seq![PolicyView::Allow]);
        assert(biscuit::request_facts(q) == all);
        let mut az = match biscuit::build_authorizer(q, b) {
            Ok(x) => x,
            Err(e) => {
                let ghost message = e@;
                assert(biscuit::may_refuse(all, seq![PolicyView::Allow], blocks, message));
                return Err(plan::bad_biscuit(e));
            },
        };
        let answer = biscuit::authorize(&mut az);
        let ghost given = biscuit::answer_view(answer);
        let r = authorization_result(answer, action);
        assert(did::unit_view(r) == answered(a, given));
        r
    }

    /// Verify the token for an action as of `now`, resolving DIDs other than `did:key` with
    /// `resolver`.
    fn verify_inner(
        &self,
        action: &Action,
        resolver: Option<&dyn DidResolver>,
        now: Timestamp,
    ) -> (r: Result<(), AgentCredsError>)
        ensures
            verify_outcome(self@, action@, resolver, now@, did::unit_view(r)),
    {
        let b = match self.parse_and_check_identity(resolver) {
            Ok(b) => b,
            Err(e) => {
                return Err(e);
            },
        };
        match self.check_use(action, now) {
            Ok(_) => {},
            Err(e) => {
                return Err(e);
            },
        }
        self.authorize_action(&b, action, now)
    }

    /// Checks the depth bound, the expiry and the principal for an action at a time.
    fn check_use(&self, action: &Action, now: Timestamp) -> (r: Result<(), AgentCredsError>)
        ensures
            match r {
                Ok(_) => rules::use_refused(self@, action@, now@) is None,
                Err(e) => rules::use_refused(self@, action@, now@) == Some(e@),
            },
    {
        proof {
            use_type_invariant(self);
        }
        assert(self@.hops.len() == self.hops@.len());
        let depth = self.depth();
        if depth > self.root_max_depth {
            return Err(
                AgentCredsError::DelegationDepthExceeded { depth, max: self.root_max_depth },
            );
        }
        let min_expiry = hop::earliest_expiry(&self.hops);
        if now.is_after(&min_expiry) {
            return Err(AgentCredsError::TokenExpired { secs_ago: now.seconds_since(&min_expiry) });
        }
        if let Some(principal) = &self.principal {
            let matches_principal = match &action.acting_for {
                Some(p) => text::str_eq(p.as_str(), principal.as_str()),
                None => false,
            };
            if !matches_principal {
                return Err(
                    AgentCredsError::ActingForMismatch {
                        required: principal.clone(),
                        asserted: text::opt_clone(&action.acting_for),
                    },
                );
            }
        }
        Ok(())
    }

    /// Verify the integrity and authenticity of the delegation chain, and that `action` is
    /// permitted, by running the token's own Datalog.
    ///
    /// This proves the chain internally consistent and authentically signed, but not that
    /// its root traces to a trusted anchor: see [`DelegationToken::verify_rooted`].
    ///
    /// # Errors
    /// `InvalidBiscuitSignature`, `InvalidKeyMaterial`, `InvalidDidSignature` or
    /// `ResolverRequired` where a hop is not proved; `DelegationDepthExceeded`;
    /// `TokenExpired`; `ActingForMismatch`; `ActionDenied`.
    pub fn verify(&self, action: &Action) -> (r: Result<(), AgentCredsError>)
        ensures
            exists|now: int| #[trigger]
                verify_outcome(self@, action@, None, now, did::unit_view(r)),
    {
        let now = Timestamp::now();
        self.verify_inner(action, None, now)
    }

    /// [`verify`](Self::verify), evaluated as of `now`: the instant reaches both the expiry
    /// check and the `time` fact of the Datalog.
    ///
    /// # Errors
    /// As [`verify`](Self::verify), with expiry judged against `now`.
    pub fn verify_at(&self, action: &Action, now: Timestamp) -> (r: Result<(), AgentCredsError>)
        ensures
            verify_outcome(self@, action@, None, now@, did::unit_view(r)),
    {
        self.verify_inner(action, None, now)
    }

    /// Like [`verify`](Self::verify), but resolves agent DIDs other than `did:key` through
    /// `resolver` to check each hop's delegation-key attestation.
    ///
    /// # Errors
    /// As [`verify`](Self::verify), plus what the resolver returns.
    pub fn verify_with_resolver(&self, action: &Action, resolver: &dyn DidResolver) -> (r: Result<
        (),
        AgentCredsError,
    >)
        ensures
            exists|now: int| #[trigger]
                verify_outcome(self@, action@, Some(resolver), now, did::unit_view(r)),
    {
        let now = Timestamp::now();
        self.verify_inner(action, Some(resolver), now)
    }

    fn verify_rooted_inner(
        &self,
        action: &Action,
        vc: &CapabilityCredential,
        anchor: &TrustAnchor,
        resolver: Option<&dyn DidResolver>,
        now: Timestamp,
    ) -> (r: Result<(), AgentCredsError>)
        ensures
            rooted_outcome(
                self@,
                action@,
                vc@,
                anchor.did_text(),
                anchor.key(),
                resolver,
                now@,
                did::unit_view(r),
            ),
    {
        let ghost t = self@;
        match vc.verify_at(anchor, true, now) {
            Ok(_) => {},
            Err(e) => {
                return Err(e);
            },
        }
        if !text::str_eq(self.vc_id.as_str(), vc.id.as_str()) {
            return Err(
                plan::bad_biscuit("token vc_id does not match the supplied credential".to_owned()),
            );
        }
        if !text::str_eq(self.issuer.as_str(), vc.issuer.as_str()) {
            return Err(
                plan::bad_biscuit("token issuer does not match the credential issuer".to_owned()),
            );
        }
        if !text::str_eq(self.subject.as_str(), vc.subject_did()) {
            return Err(
                plan::bad_biscuit("token subject does not match the credential subject".to_owned()),
            );
        }
        match rules::check_root_scope(
            &self.root_tools,
            self.root_budget,
            self.root_max_depth,
            self.max_action_cost,
            vc,
            Ghost(t),
        ) {
            Ok(_) => {},
            Err(e) => {
                return Err(e);
            },
        }
        match rules::check_root_resources(&self.root_resources, vc, Ghost(t)) {
            Ok(_) => {},
            Err(e) => {
                return Err(e);
            },
        }
        match rules::check_principal(&self.principal, &self.root_resources, vc, Ghost(t)) {
            Ok(_) => {},
            Err(e) => {
                return Err(e);
            },
        }
        self.verify_inner(action, resolver, now)
    }

    /// Verify `action` against this token and bind the chain's root to an anchor-issued
    /// credential: the complete check that a relying party runs. In addition to every check
    /// of [`DelegationToken::verify`], the credential must verify against the anchor, the
    /// token must be derived from it and minted by its subject, its root scope and resources
    /// must lie within the grant, and its principal must be the credential's.
    ///
    /// # Errors
    /// As [`verify`](Self::verify), plus `IssuerMismatch`, `InvalidVcProof`,
    /// `CredentialExpired`, `ScopeWideningAttempt`, `PrincipalMismatch`, `ConsentViolation`.
    pub fn verify_rooted(
        &self,
        action: &Action,
        vc: &CapabilityCredential,
        anchor: &TrustAnchor,
    ) -> (r: Result<(), AgentCredsError>)
        ensures
            exists|now: int| #[trigger]
                rooted_outcome(
                    self@,
                    action@,
                    vc@,
                    anchor.did_text(),
                    anchor.key(),
                    None,
                    now,
                    did::unit_view(r),
                ),
    {
        let now = Timestamp::now();
        self.verify_rooted_inner(action, vc, anchor, None, now)
    }

    /// [`verify_rooted`](Self::verify_rooted), evaluated as of `now`: one instant governs the
    /// credential's expiry, every hop's expiry and the `time` fact of the Datalog.
    ///
    /// # Errors
    /// As [`verify_rooted`](Self::verify_rooted), with every time check judged against `now`.
    pub fn verify_rooted_at(
        &self,
        action: &Action,
        vc: &CapabilityCredential,
        anchor: &TrustAnchor,
        now: Timestamp,
    ) -> (r: Result<(), AgentCredsError>)
        ensures
            rooted_outcome(
                self@,
                action@,
                vc@,
                anchor.did_text(),
                anchor.key(),
                None,
                now@,
                did::unit_view(r),
            ),
    {
        self.verify_rooted_inner(action, vc, anchor, None, now)
    }

    /// Like [`verify_rooted`](Self::verify_rooted), but resolves agent DIDs other than
    /// `did:key` through `resolver`.
    ///
    /// # Errors
    /// As [`verify_rooted`](Self::verify_rooted), plus what the resolver returns.
    pub fn verify_rooted_with_resolver(
        &self,
        action: &Action,
        vc: &CapabilityCredential,
        anchor: &TrustAnchor,
        resolver: &dyn DidResolver,
    ) -> (r: Result<(), AgentCredsError>)
        ensures
            exists|now: int| #[trigger]
                rooted_outcome(
                    self@,
                    action@,
                    vc@,
                    anchor.did_text(),
                    anchor.key(),
                    Some(resolver),
                    now,
                    did::unit_view(r),
                ),
    {
        let now = Timestamp::now();
        self.verify_rooted_inner(action, vc, anchor, Some(resolver), now)
    }

    /// The execution-time gate designations carried by this token, read from the facts of
    /// every block.
    pub fn gates(&self) -> (r: &Vec<Gate>)
        ensures
            approval::gate_views(r@) == self@.gates,
    {
        &self.gates
    }

    /// The gates that designate `action.tool`.
    pub fn required_gates(&self, action: &Action) -> (r: Vec<Gate>)
        ensures
            approval::gate_views(r@) == rules::designating(self@.gates, action@.tool),
    {
        rules::gates_for(&self.gates, action.tool.as_str())
    }

    /// The complete relying-party check including execution-time human authorization, where
    /// only anchor-signed `approval` gates can be satisfied.
    ///
    /// # Errors
    /// As [`verify_rooted`](Self::verify_rooted), plus `ActionDenied` where a gate is not met.
    pub fn verify_rooted_gated(
        &self,
        action: &Action,
        vc: &CapabilityCredential,
        anchor: &TrustAnchor,
        evidence: &[ApprovalEvidence],
        recognized_kinds: &[&str],
        now_unix: i64,
    ) -> (r: Result<Vec<String>, AgentCredsError>)
        ensures
            exists|rooted: Result<(), ErrorView>| #[trigger]
                gated_outcome(
                    self@,
                    vc@,
                    rules::evidence_views(evidence@),
                    rules::str_views(recognized_kinds@),
                    rules::gate_setting(action, anchor, None, now_unix),
                    rooted,
                    ids_view(r),
                ),
    {
        self.verify_rooted_gated_with_directory(
            action,
            vc,
            anchor,
            evidence,
            None,
            recognized_kinds,
            now_unix,
        )
    }

    /// The complete relying-party check including execution-time human authorization:
    /// everything [`verify_rooted`](Self::verify_rooted) checks, and for every gate on the
    /// tool, whether the token or its credential carries it, that evidence satisfies it.
    ///
    /// - `evidence` - the human-authorization evidence carried with the request.
    /// - `directory` - the approver directory, needed for `approval-key` gates.
    /// - `recognized_kinds` - the kinds of gate that the relying party knows how to satisfy. Any
    ///   other kind makes the action unauthorized.
    /// - `now_unix` - current Unix time, for evidence-expiry checks.
    ///
    /// One-time reliance is enforced by the caller: record the identifiers returned and
    /// refuse a second reliance.
    ///
    /// # Errors
    /// As [`verify_rooted`](Self::verify_rooted), plus `ActionDenied` where a gate is not met.
    pub fn verify_rooted_gated_with_directory(
        &self,
        action: &Action,
        vc: &CapabilityCredential,
        anchor: &TrustAnchor,
        evidence: &[ApprovalEvidence],
        directory: Option<&ApproverDirectory>,
        recognized_kinds: &[&str],
        now_unix: i64,
    ) -> (r: Result<Vec<String>, AgentCredsError>)
        ensures
            exists|rooted: Result<(), ErrorView>| #[trigger]
                gated_outcome(
                    self@,
                    vc@,
                    rules::evidence_views(evidence@),
                    rules::str_views(recognized_kinds@),
                    rules::gate_setting(action, anchor, directory, now_unix),
                    rooted,
                    ids_view(r),
                ),
    {
        let rooted = self.verify_rooted(action, vc, anchor);
        let ghost seen = did::unit_view(rooted);
        let ghost setting = rules::gate_setting(action, anchor, directory, now_unix);
        match rooted {
            Ok(_) => {},
            Err(e) => {
                assert(gated_outcome(
                    self@,
                    vc@,
                    rules::evidence_views(evidence@),
                    rules::str_views(recognized_kinds@),
                    setting,
                    seen,
                    Err::<Seq<Seq<char>>, ErrorView>(e@),
                ));
                return Err(e);
            },
        }
        let effective = rules::gates_in_force(
            &self.gates,
            &vc.claims.required_gates,
            action.tool.as_str(),
        );
        let r = rules::check_gates(
            &effective,
            action,
            anchor,
            evidence,
            directory,
            recognized_kinds,
            now_unix,
        );
        assert(gated_outcome(
            self@,
            vc@,
            rules::evidence_views(evidence@),
            rules::str_views(recognized_kinds@),
            setting,
            seen,
            ids_view(r),
        ));
        r
    }

    /// Mint a new delegation token from a capability credential.
    ///
    /// # Arguments
    /// * `vc`       - The capability credential (must not be expired)
    /// * `scope`    - Initial scope (must be a subset of the credential's grant)
    /// * `ttl_secs` - Time-to-live in seconds (capped at the credential's expiry)
    /// * `agent`    - The identity minting this token (its delegation key is the Biscuit
    ///   root; must be the credential's subject)
    ///
    /// # Errors
    /// As [`rules::check_mint`]; `OutOfBounds` for a text that may not stand in a Datalog
    /// term; `InvalidBiscuitSignature` for an expiry that has no Datalog date, and where
    /// Biscuit fails.
    pub fn mint(
        vc: &CapabilityCredential,
        scope: Scope,
        ttl_secs: u64,
        agent: &AgentIdentity,
    ) -> (r: Result<Self, AgentCredsError>)
        ensures
            exists|now: int| #[trigger]
                mint_outcome(
                    vc@,
                    scope@,
                    ttl_secs,
                    agent.did_text(),
                    agent.delegation_key(),
                    agent.attestation(),
                    now,
                    token_view(r),
                ),
    {
        let now = Timestamp::now();
        Self::mint_at(vc, scope, ttl_secs, agent, now)
    }

    /// [`mint`](Self::mint), as of `now`.
    ///
    /// # Errors
    /// As [`mint`](Self::mint).
    pub fn mint_at(
        vc: &CapabilityCredential,
        scope: Scope,
        ttl_secs: u64,
        agent: &AgentIdentity,
        now: Timestamp,
    ) -> (r: Result<Self, AgentCredsError>)
        ensures
            mint_outcome(
                vc@,
                scope@,
                ttl_secs,
                agent.did_text(),
                agent.delegation_key(),
                agent.attestation(),
                now@,
                token_view(r),
            ),
    {
        match rules::check_mint(vc, &scope, ttl_secs, agent.did(), now) {
            Ok(_) => {},
            Err(e) => {
                return Err(e);
            },
        }
        let expires_at = vc.expiration_date.earlier(now.plus_secs(ttl_secs));
        assert(expires_at@ == rules::mint_expiry(vc@, ttl_secs, now@));
        let secret = agent.delegation_secret_bytes();
        match reading::check_delegation_secret(secret) {
            Ok(_) => {},
            Err(e) => {
                return Err(e);
            },
        }
        let public = agent.delegation_public_key();
        let block = match plan::authority_plan(vc, &scope, &expires_at) {
            Ok(p) => p,
            Err(e) => {
                return Err(e);
            },
        };
        match reading::check_delegation_key(public) {
            Ok(_) => {},
            Err(e) => {
                assert(public@ != crypto::ed25519_public(secret@));
                return Err(e);
            },
        }
        let ghost facts = plan::mint_facts(vc@, scope@);
        let ghost checks = plan::mint_checks(vc@, scope@, expires_at@);
        proof {
            plan::lemma_mint_writable(vc@, scope@, expires_at@);
        }
        let bytes = match plan::write_authority(&block, secret, Ghost(facts), Ghost(checks)) {
            Ok(b) => b,
            Err(e) => {
                return Err(e);
            },
        };
        let root = Hop {
            agent_did: agent.did().to_owned(),
            delegation_public: encoding::bytes_clone(public),
            attestation: encoding::bytes_clone(agent.delegation_attestation()),
            tools: scope.tools.sorted(),
            resources: scope.resources.sorted(),
            budget_usd: scope.budget_usd,
            max_action_cost: scope.max_action_cost,
            issued_at: now,
            expires_at,
            depth: 0,
        };
        let ghost shown = root@;
        let mut hops: Vec<Hop> = Vec::new();
        hops.push(root);
        assert(hop::hop_views(hops@) =~= seq![shown]);
        Self::from_wire(DelegationTokenWire { biscuit: bytes, hops })
    }

    /// Attenuate this token for a sub-agent: a further block, signed by the sub-agent's
    /// delegation key, with the checks of a narrower scope.
    ///
    /// # Arguments
    /// * `narrow`   - Narrower scope for the sub-agent
    /// * `ttl_secs` - TTL for this hop (capped at the parent's expiry)
    /// * `agent`    - The identity of the sub-agent being delegated to
    ///
    /// # Errors
    /// `DelegationDepthExceeded` or `ScopeWideningAttempt` where the token may not be
    /// narrowed so; `OutOfBounds` for a text that may not stand in a Datalog term;
    /// `InvalidBiscuitSignature` for a sealed token, for an expiry that has no Datalog date, and
    /// where Biscuit fails.
    pub fn attenuate(&self, narrow: Scope, ttl_secs: u64, agent: &AgentIdentity) -> (r: Result<
        Self,
        AgentCredsError,
    >)
        ensures
            exists|now: int| #[trigger]
                attenuate_outcome(
                    self@,
                    narrow@,
                    ttl_secs,
                    agent.did_text(),
                    agent.delegation_key(),
                    agent.attestation(),
                    now,
                    token_view(r),
                ),
    {
        let now = Timestamp::now();
        self.attenuate_at(narrow, ttl_secs, agent, now)
    }

    /// [`attenuate`](Self::attenuate), as of `now`.
    ///
    /// # Errors
    /// As [`attenuate`](Self::attenuate).
    pub fn attenuate_at(
        &self,
        narrow: Scope,
        ttl_secs: u64,
        agent: &AgentIdentity,
        now: Timestamp,
    ) -> (r: Result<Self, AgentCredsError>)
        ensures
            attenuate_outcome(
                self@,
                narrow@,
                ttl_secs,
                agent.did_text(),
                agent.delegation_key(),
                agent.attestation(),
                now@,
                token_view(r),
            ),
    {
        proof {
            use_type_invariant(self);
        }
        let ghost t = self@;
        assert(t.hops.len() == self.hops@.len());
        assert(t.hops[0] == self.hops@[0]@);
        let parent = &self.hops[self.hops.len() - 1];
        assert(t.hops.last() == parent@);
        match rules::check_narrow(
            parent,
            self.depth(),
            self.root_max_depth,
            hop::tighter_of(self.root_budget, hop::tightest_budget(&self.hops)),
            self.max_action_cost,
            &narrow,
            Ghost(t),
        ) {
            Ok(_) => {},
            Err(e) => {
                return Err(e);
            },
        }
        let bounded = if ttl_secs <= vc::MAX_VALID_FOR_SECS {
            ttl_secs
        } else {
            vc::MAX_VALID_FOR_SECS
        };
        let expires_at = parent.expires_at.earlier(now.plus_secs(bounded));
        assert(expires_at@ == rules::hop_expiry(parent@.expires_at, ttl_secs, now@));
        let decoded = match reading::decode_token(
            self.biscuit.as_slice(),
            self.hops[0].delegation_public.as_slice(),
        ) {
            Ok(b) => b,
            Err(e) => {
                return Err(e);
            },
        };
        let request = match biscuit::third_party_request(&decoded) {
            Ok(q) => q,
            Err(e) => {
                return Err(plan::bad_biscuit(e));
            },
        };
        let secret = agent.delegation_secret_bytes();
        match reading::check_delegation_secret(secret) {
            Ok(_) => {},
            Err(e) => {
                return Err(e);
            },
        }
        let public = agent.delegation_public_key();
        let block = match plan::hop_plan(agent.did(), &narrow, &expires_at) {
            Ok(p) => p,
            Err(e) => {
                return Err(e);
            },
        };
        match reading::check_delegation_key(public) {
            Ok(_) => {},
            Err(e) => {
                assert(public@ != crypto::ed25519_public(secret@));
                return Err(e);
            },
        }
        let ghost facts = plan::hop_facts(agent.did_text(), narrow@);
        let ghost checks = plan::hop_checks(narrow@, expires_at@);
        proof {
            plan::lemma_hop_writable(agent.did_text(), narrow@, expires_at@);
        }
        let bytes = match plan::write_hop(
            &decoded,
            request,
            &block,
            secret,
            public,
            Ghost(facts),
            Ghost(checks),
        ) {
            Ok(b) => b,
            Err(e) => {
                return Err(e);
            },
        };
        let next = Hop {
            agent_did: agent.did().to_owned(),
            delegation_public: encoding::bytes_clone(public),
            attestation: encoding::bytes_clone(agent.delegation_attestation()),
            tools: narrow.tools.sorted(),
            resources: narrow.resources.sorted(),
            budget_usd: narrow.budget_usd,
            max_action_cost: narrow.max_action_cost,
            issued_at: now,
            expires_at,
            depth: rules::deeper(parent.depth),
        };
        let ghost shown = next@;
        let mut hops = hop::hops_clone(&self.hops);
        let ghost before = hop::hop_views(hops@);
        hops.push(next);
        proof {
            assert(hop::hop_views(hops@) =~= before.push(shown));
            assert(hops@[0]@ == hop::hop_views(hops@)[0]);
            assert(before[0] == t.hops[0]);
        }
        Self::from_wire(DelegationTokenWire { biscuit: bytes, hops })
    }

    /// The identifier of the credential this token was derived from (from the Biscuit).
    pub fn vc_id(&self) -> (r: &str)
        ensures
            r@ == self@.vc_id,
    {
        self.vc_id.as_str()
    }

    /// The issuer DID (trust anchor) of that credential (from the Biscuit).
    pub fn issuer_did(&self) -> (r: &str)
        ensures
            r@ == self@.issuer,
    {
        self.issuer.as_str()
    }

    /// The DID of the leaf (most-delegated) agent.
    pub fn leaf_agent_did(&self) -> (r: &str)
        ensures
            self@.hops.len() > 0,
            r@ == self@.hops.last().agent_did,
    {
        proof {
            use_type_invariant(self);
        }
        assert(self@.hops.len() == self.hops@.len());
        self.hops[self.hops.len() - 1].agent_did.as_str()
    }

    /// The DID of the root (subject) agent.
    pub fn root_agent_did(&self) -> (r: &str)
        ensures
            self@.hops.len() > 0,
            r@ == self@.hops[0].agent_did,
    {
        proof {
            use_type_invariant(self);
        }
        assert(self@.hops.len() == self.hops@.len());
        self.hops[0].agent_did.as_str()
    }

    /// When this token stops being usable: the earliest expiry across its hops.
    #[must_use]
    pub fn expires_at(&self) -> (r: Timestamp)
        ensures
            r@ == hop::min_expiry(self@.hops),
    {
        proof {
            use_type_invariant(self);
        }
        assert(self@.hops.len() == self.hops@.len());
        hop::earliest_expiry(&self.hops)
    }

    /// The human principal DID this token is bound to (on-behalf-of), or `None`. Read from
    /// the Biscuit.
    pub fn principal_did(&self) -> (r: Option<&str>)
        ensures
            match r {
                Some(p) => self@.principal == Some(p@),
                None => self@.principal is None,
            },
    {
        match &self.principal {
            Some(p) => Some(p.as_str()),
            None => None,
        }
    }

    /// The root resource allow-list this token was minted with (from the Biscuit).
    pub fn root_resources(&self) -> (r: &Vec<String>)
        ensures
            text::views(r@) == self@.root_resources,
    {
        &self.root_resources
    }

    /// A stable content binding for the leaf: the SHA-256 of the serialized Biscuit, in
    /// hexadecimal.
    pub fn leaf_binding(&self) -> (r: String)
        ensures
            r@ == leaf_binding_of(self@),
    {
        crypto::hex_encode(crypto::sha256(self.biscuit.as_slice()).as_slice())
    }

    /// The ceiling on attenuation (from the Biscuit's authority block).
    pub fn max_delegation_depth(&self) -> (r: u32)
        ensures
            r == self@.root_max_depth,
    {
        self.root_max_depth
    }

    /// The tightest per-action cost cap in force across the chain, or `None` where no hop
    /// asserts one. Read from the Biscuit.
    pub fn max_action_cost(&self) -> (r: Option<u32>)
        ensures
            r == self@.max_action_cost,
    {
        self.max_action_cost
    }

    /// Extract the full delegation chain as audit entries.
    pub fn chain(&self) -> (r: DelegationChain)
        ensures
            r@ == hop::audit_chain(self@),
    {
        DelegationChain {
            vc_id: self.vc_id.clone(),
            issuer_did: self.issuer.clone(),
            principal_did: text::opt_clone(&self.principal),
            entries: hop::audit_entries(&self.hops),
        }
    }
}

} // verus!
