//! What holds of verifying, minting and narrowing as a whole: what a success shows, why a refusal
//! comes, and what a token reports of its chain.

use vstd::prelude::*;
use crate::approval;
use crate::approval::GateView;
use crate::delegation::action::ActionView;
use crate::delegation::biscuit;
use crate::delegation::datalog;
use crate::delegation::hop;
use crate::delegation::hop::TokenView;
use crate::delegation::laws;
use crate::delegation::plan;
use crate::delegation::reading;
use crate::delegation::rules;
use crate::delegation::scope::ScopeView;
use crate::delegation::token;
use crate::did;
use crate::did::{DidDocument, DidResolver, KeyView};
use crate::error::{AgentCredsError, ErrorView};
use crate::strings;
use crate::text;
use crate::time;
use crate::vc;
use crate::vc::CredentialView;

verus! {

// -- What a verified token shows ---------------------------------------------------------------------

/// A token whose identities hold is one chain of agents that each prove themselves: it has a block for
/// every hop, its subject is its first agent, every hop's delegation key is attested by the key that
/// the hop's own `did:key` holds, and every block but the first is signed by its hop's delegation key.
/// Other DIDs are never accepted without a resolver.
pub proof fn a_proved_chain_is_attested_hop_by_hop(t: TokenView, resolver: Option<&dyn DidResolver>)
    requires
        token::identity_outcome(t, resolver, Ok(())),
    ensures
        reading::contents(t).len() == t.hops.len(),
        t.subject == t.hops[0].agent_did,
        forall|k: int|
            0 <= k < t.hops.len() && text::begins((#[trigger] t.hops[k]).agent_did, "did:key:"@)
                ==> did::did_key_of(t.hops[k].agent_did) is Ok && did::key_verifies(
                did::did_key_of(t.hops[k].agent_did)->Ok_0,
                did::attestation_bytes(t.hops[k].delegation_public),
                t.hops[k].attestation,
            ) is Ok,
        forall|k: int|
            0 <= k < t.hops.len() && !text::begins((#[trigger] t.hops[k]).agent_did, "did:key:"@)
                ==> resolver is Some,
        forall|k: int|
            0 < k < t.hops.len() ==> reading::contents(t)[k].signer == Some(
                (#[trigger] t.hops[k]).delegation_public,
            ),
{
    let blocks = reading::contents(t);
    assert(token::chain_error(t, blocks) is None);
    assert forall|k: int| 0 <= k < t.hops.len() implies token::hop_proved(
        t,
        blocks,
        resolver,
        k,
    ) && (#[trigger] t.hops[k]) == t.hops[k] by {}
}

/// Where a hop's DID is resolved, the delegation key is attested by the key of a document that the
/// resolver may have given for that very DID.
pub proof fn a_resolved_hop_is_attested_by_its_document(
    t: TokenView,
    resolver: Option<&dyn DidResolver>,
    k: int,
)
    requires
        token::identity_outcome(t, resolver, Ok(())),
        0 <= k < t.hops.len(),
        !text::begins(t.hops[k].agent_did, "did:key:"@),
    ensures
        resolver is Some,
        exists|doc: DidDocument|
            {
                let key = did::document_key(t.hops[k].agent_did, doc@);
                &&& #[trigger] resolver->0.may_resolve(t.hops[k].agent_did, Ok(doc))
                &&& key is Ok
                &&& did::key_verifies(
                    key->Ok_0,
                    did::attestation_bytes(t.hops[k].delegation_public),
                    t.hops[k].attestation,
                ) is Ok
            },
{
    let blocks = reading::contents(t);
    assert(token::chain_error(t, blocks) is None);
    assert(token::hop_proved(t, blocks, resolver, k));
    let h = t.hops[k];
    assert(token::hop_attestation(h, resolver, Ok(())));
    let answer = choose|answer: Result<DidDocument, AgentCredsError>| #[trigger]
        resolver->0.may_resolve(h.agent_did, answer) && Ok::<(), ErrorView>(()) == did::attested_by(
            match answer {
                Ok(doc) => did::document_key(h.agent_did, doc@),
                Err(e) => Err(e@),
            },
            h.delegation_public,
            h.attestation,
        );
    assert(answer is Ok);
    let doc = answer->Ok_0;
    assert(resolver->0.may_resolve(h.agent_did, Ok(doc)));
}

/// A verification that succeeds has looked at all of it: the identities hold, the chain is no deeper
/// than its bound, no hop has expired, the principal is the one acted for, the time has a date, every
/// text of the request is safe, and every check of the token holds for the request.
pub proof fn a_verified_token_was_checked_throughout(
    t: TokenView,
    a: ActionView,
    resolver: Option<&dyn DidResolver>,
    now: int,
)
    requires
        t.hops.len() > 0,
        token::verify_outcome(t, a, resolver, now, Ok(())),
    ensures
        token::identity_outcome(t, resolver, Ok(())),
        hop::depth_of(t.hops) <= t.root_max_depth,
        forall|i: int| 0 <= i < t.hops.len() ==> now <= (#[trigger] t.hops[i]).expires_at,
        t.principal is Some ==> a.acting_for == t.principal,
        datalog::dateable(time::second_of(now)),
        datalog::safe_text(a.tool),
        a.resource is Some ==> datalog::safe_text(a.resource->0),
        a.acting_for is Some ==> datalog::safe_text(a.acting_for->0),
        datalog::permitted(token::request_of(a, now), reading::contents(t)),
{
    rules::a_usable_token_is_current_and_on_behalf(t, a, now);
}

/// A verification fails for a reason: where the identities do not hold, or a rule of use refuses, or
/// a text is unsafe, there is no success; and where none of these is the case, the authorizer's answer
/// over the token's own blocks is what is given, a denial naming the tool.
pub proof fn a_verification_fails_for_a_reason(
    t: TokenView,
    a: ActionView,
    resolver: Option<&dyn DidResolver>,
    now: int,
    e: ErrorView,
)
    requires
        t.hops.len() > 0,
        token::verify_outcome(t, a, resolver, now, Err(e)),
    ensures
        token::identity_outcome(t, resolver, Err(e)) || rules::use_refused(t, a, now) == Some(e) || (
        rules::use_refused(t, a, now) is None && (e is InvalidBiscuitSignature || e is OutOfBounds
            || (e is ActionDenied && e->ActionDenied_action == a.tool))),
        e is OutOfBounds && !token::identity_outcome(t, resolver, Err(e)) ==> !datalog::safe_text(
            a.tool,
        ) || (a.resource is Some && !datalog::safe_text(a.resource->0)) || (a.acting_for is Some
            && !datalog::safe_text(a.acting_for->0)),
{
    rules::a_usable_token_is_current_and_on_behalf(t, a, now);
}

/// A rooted verification that succeeds shows that the anchor signed the credential, that the
/// credential has not expired, that the token is within it, and that the token itself verifies.
pub proof fn a_rooted_token_comes_from_its_anchor(
    t: TokenView,
    a: ActionView,
    c: CredentialView,
    anchor_did: Seq<char>,
    anchor_key: KeyView,
    resolver: Option<&dyn DidResolver>,
    now: int,
)
    requires
        token::rooted_outcome(t, a, c, anchor_did, anchor_key, resolver, now, Ok(())),
    ensures
        c.issuer == anchor_did,
        did::key_verifies(anchor_key, vc::credential_digest(c), c.proof_value) is Ok,
        now <= c.expiration_date,
        rules::rooted_in(t, c),
        token::verify_outcome(t, a, resolver, now, Ok(())),
{
}

/// Where the credential is the anchor's and current and the token is rooted in it, a rooted
/// verification gives what verifying the token gives, and nothing else.
pub proof fn a_rooted_verification_adds_nothing_else(
    t: TokenView,
    a: ActionView,
    c: CredentialView,
    anchor_did: Seq<char>,
    anchor_key: KeyView,
    resolver: Option<&dyn DidResolver>,
    now: int,
    r: Result<(), ErrorView>,
)
    requires
        c.issuer == anchor_did,
        did::key_verifies(anchor_key, vc::credential_digest(c), c.proof_value) is Ok,
        now <= c.expiration_date,
        rules::rooted_in(t, c),
    ensures
        token::rooted_outcome(t, a, c, anchor_did, anchor_key, resolver, now, r)
            <==> token::verify_outcome(t, a, resolver, now, r),
{
}

/// A token that is not rooted in the credential is refused, and the error says what does not match.
pub proof fn an_unrooted_token_is_refused(
    t: TokenView,
    a: ActionView,
    c: CredentialView,
    anchor_did: Seq<char>,
    anchor_key: KeyView,
    resolver: Option<&dyn DidResolver>,
    now: int,
    r: Result<(), ErrorView>,
)
    requires
        !rules::rooted_in(t, c) || vc::credential_verifies(
            c,
            anchor_did,
            anchor_key,
            true,
            now,
        ) is Err,
        token::rooted_outcome(t, a, c, anchor_did, anchor_key, resolver, now, r),
    ensures
        r is Err,
        r->Err_0 is IssuerMismatch || r->Err_0 is InvalidVcProof || r->Err_0 is CredentialExpired
            || r->Err_0 is InvalidBiscuitSignature || r->Err_0 is ScopeWideningAttempt
            || r->Err_0 is PrincipalMismatch || r->Err_0 is ConsentViolation,
{
}

/// A gated verification that succeeds shows that the rooted one does, and that every gate which the
/// token or its credential puts on the tool is of a recognized kind and met by an item of the
/// evidence; there is one identifier for each gate in force.
pub proof fn a_gated_success_meets_every_gate(
    t: TokenView,
    c: CredentialView,
    evidence: Seq<approval::EvidenceView>,
    recognized: Seq<Seq<char>>,
    g: rules::GateSetting,
    rooted: Result<(), ErrorView>,
    ids: Seq<Seq<char>>,
    x: GateView,
)
    requires
        token::gated_outcome(t, c, evidence, recognized, g, rooted, Ok(ids)),
        x.tool == g.action.tool,
        t.gates.contains(x) || c.claims.required_gates.contains(x),
    ensures
        rooted is Ok,
        exists|now: int| #[trigger]
            token::rooted_outcome(t, g.action, c, g.anchor_did, g.anchor_key, None, now, Ok(())),
        recognized.contains(x.kind),
        exists|i: int|
            0 <= i < evidence.len() && rules::satisfies(#[trigger] evidence[i], x.kind, g)
                && ids.contains(evidence[i].approval_id),
{
    let gates = rules::effective_gates(t.gates, c.claims.required_gates, g.action.tool);
    rules::no_gate_is_dropped(t.gates, c.claims.required_gates, g.action.tool, x);
    rules::gates_are_checked_one_by_one(gates, evidence, recognized, g);
    let k = choose|k: int| 0 <= k < gates.len() && gates[k] == x;
    rules::an_unmet_gate_denies_the_action(x.kind, evidence, recognized, g);
    assert(rules::gate_outcome(gates[k].kind, evidence, recognized, g) == Ok::<
        Seq<char>,
        ErrorView,
    >(ids[k]));
    let i = choose|i: int|
        0 <= i < evidence.len() && rules::satisfies(#[trigger] evidence[i], x.kind, g) && ids[k]
            == evidence[i].approval_id;
    assert(ids.contains(evidence[i].approval_id));
}

/// Where the rooted verification succeeds, every gate in force is of a recognized kind and each is met
/// by some item of the evidence, a gated verification succeeds with one identifier for each gate.
pub proof fn evidence_for_all_gates_lets_the_action_through(
    t: TokenView,
    c: CredentialView,
    evidence: Seq<approval::EvidenceView>,
    recognized: Seq<Seq<char>>,
    g: rules::GateSetting,
    r: Result<Seq<Seq<char>>, ErrorView>,
)
    requires
        token::gated_outcome(t, c, evidence, recognized, g, Ok(()), r),
        forall|x: GateView|
            x.tool == g.action.tool && (t.gates.contains(x) || c.claims.required_gates.contains(x))
                ==> recognized.contains(#[trigger] x.kind) && exists|k: int|
                0 <= k < evidence.len() && rules::satisfies(#[trigger] evidence[k], x.kind, g),
    ensures
        r is Ok,
        r->Ok_0.len() == rules::effective_gates(
            t.gates,
            c.claims.required_gates,
            g.action.tool,
        ).len(),
{
    let gates = rules::effective_gates(t.gates, c.claims.required_gates, g.action.tool);
    assert forall|i: int| 0 <= i < gates.len() implies recognized.contains(
        (#[trigger] gates[i]).kind,
    ) && exists|k: int|
        0 <= k < evidence.len() && rules::satisfies(#[trigger] evidence[k], gates[i].kind, g) by {
        assert(gates.contains(gates[i]));
        rules::only_gates_of_the_tool_are_in_force(
            t.gates,
            c.claims.required_gates,
            g.action.tool,
            gates[i],
        );
        assert(recognized.contains(gates[i].kind));
    }
    rules::evidence_for_every_gate_is_enough(gates, evidence, recognized, g);
}

// -- What minting and narrowing give out --------------------------------------------------------------

/// A token that minting gives out was allowed, and its one hop records the agent, its key and its
/// attestation, the scope, the time of minting and the expiry.
pub proof fn a_minted_token_was_allowed(
    t: TokenView,
    c: CredentialView,
    s: ScopeView,
    ttl_secs: u64,
    agent_did: Seq<char>,
    key: Seq<u8>,
    attestation: Seq<u8>,
    now: int,
)
    requires
        token::mint_outcome(c, s, ttl_secs, agent_did, key, attestation, now, Ok(t)),
    ensures
        rules::mint_allowed(c, s, ttl_secs, agent_did, now),
        token::minted(t, c, s, ttl_secs, agent_did, key, attestation, now),
        t.hops.len() == 1,
        t.hops[0].agent_did == agent_did,
        t.hops[0].delegation_public == key,
        t.hops[0].attestation == attestation,
        t.hops[0].tools.to_set() == s.tools,
        t.hops[0].resources.to_set() == s.resources,
        t.hops[0].budget_usd == s.budget_usd,
        t.hops[0].max_action_cost == s.max_action_cost,
        t.hops[0].issued_at == now,
        t.hops[0].expires_at == rules::mint_expiry(c, ttl_secs, now),
        t.hops[0].depth == 0,
{
}

/// What minting refuses, it refuses for a reason: the credential has expired, the agent is not its
/// subject, the lifetime is over the ceiling, or the scope goes beyond the grant or the consent.
pub proof fn a_refused_mint_says_why(
    c: CredentialView,
    s: ScopeView,
    ttl_secs: u64,
    agent_did: Seq<char>,
    key: Seq<u8>,
    attestation: Seq<u8>,
    now: int,
    r: Result<TokenView, ErrorView>,
)
    requires
        token::mint_outcome(c, s, ttl_secs, agent_did, key, attestation, now, r),
        !rules::mint_allowed(c, s, ttl_secs, agent_did, now),
    ensures
        r is Err,
        now > c.expiration_date ==> r->Err_0 is CredentialExpired,
        now <= c.expiration_date && agent_did != c.subject ==> r->Err_0 is InvalidBiscuitSignature,
        now <= c.expiration_date && agent_did == c.subject && ttl_secs
            > c.claims.token_ttl_ceiling_secs ==> r->Err_0 is OutOfBounds,
        now <= c.expiration_date && agent_did == c.subject && ttl_secs
            <= c.claims.token_ttl_ceiling_secs ==> r->Err_0 is ScopeWideningAttempt
            || r->Err_0 is ConsentViolation,
        r->Err_0 is ConsentViolation ==> s.resources.contains(r->Err_0->ConsentViolation_capability)
            && !rules::within_authority(
            r->Err_0->ConsentViolation_capability,
            c.claims.on_behalf_of->0.resource_authority,
        ),
{
}

/// A token that narrowing gives out was allowed, and its new hop records the agent, its key and its
/// attestation, the scope, the time and the expiry, one level deeper than its parent; the hops before
/// are the parent's.
pub proof fn a_narrowed_token_was_allowed(
    child: TokenView,
    parent: TokenView,
    s: ScopeView,
    ttl_secs: u64,
    agent_did: Seq<char>,
    key: Seq<u8>,
    attestation: Seq<u8>,
    now: int,
)
    requires
        parent.hops.len() > 0,
        token::attenuate_outcome(parent, s, ttl_secs, agent_did, key, attestation, now, Ok(child)),
    ensures
        rules::narrow_allowed(parent, s),
        token::narrowed(child, parent, s, ttl_secs, agent_did, key, attestation, now),
        child.hops.len() == parent.hops.len() + 1,
        forall|i: int| 0 <= i < parent.hops.len() ==> child.hops[i] == #[trigger] parent.hops[i],
        ({
            let h = child.hops[parent.hops.len() as int];
            &&& h.agent_did == agent_did
            &&& h.delegation_public == key
            &&& h.attestation == attestation
            &&& h.tools.to_set() == s.tools
            &&& h.resources.to_set() == s.resources
            &&& h.budget_usd == s.budget_usd
            &&& h.max_action_cost == s.max_action_cost
            &&& h.issued_at == now
            &&& h.expires_at == rules::hop_expiry(parent.hops.last().expires_at, ttl_secs, now)
            &&& h.expires_at <= parent.hops.last().expires_at
            &&& parent.hops.last().depth < u32::MAX ==> h.depth == parent.hops.last().depth + 1
        }),
{
}

/// What narrowing refuses, it refuses for a reason: the depth bound leaves no room, the scope goes
/// beyond the leaf's, or the token is sealed.
pub proof fn a_refused_narrowing_says_why(
    parent: TokenView,
    s: ScopeView,
    ttl_secs: u64,
    agent_did: Seq<char>,
    key: Seq<u8>,
    attestation: Seq<u8>,
    now: int,
    r: Result<TokenView, ErrorView>,
)
    requires
        token::attenuate_outcome(parent, s, ttl_secs, agent_did, key, attestation, now, r),
    ensures
        hop::depth_of(parent.hops) >= parent.root_max_depth ==> r is Err
            && r->Err_0 is DelegationDepthExceeded && r->Err_0->DelegationDepthExceeded_max
            == parent.root_max_depth,
        hop::depth_of(parent.hops) < parent.root_max_depth && !rules::narrow_allowed(parent, s)
            ==> r is Err && r->Err_0 is ScopeWideningAttempt,
        rules::narrow_allowed(parent, s) && biscuit::bytes_sealed(parent.biscuit) ==> r is Err
            && r->Err_0 is InvalidBiscuitSignature,
        rules::narrow_allowed(parent, s) && r is Err ==> r->Err_0 is InvalidBiscuitSignature
            || r->Err_0 is OutOfBounds,
{
}

/// An unsafe text stops a token from being minted or narrowed to: every text that a block would quote
/// is safe in a token that is given out.
pub proof fn a_written_block_has_only_safe_texts(c: CredentialView, s: ScopeView, agent_did: Seq<char>)
    ensures
        plan::mint_head_unsafe(c, s) is None && plan::mint_tail_unsafe(c, s) is None ==> {
            &&& datalog::safe_text(c.id) && datalog::safe_text(c.issuer) && datalog::safe_text(
                c.subject,
            )
            &&& datalog::all_safe(strings::listing(s.tools))
            &&& datalog::all_safe(strings::listing(s.resources))
            &&& c.claims.on_behalf_of is Some ==> datalog::safe_text(
                c.claims.on_behalf_of->0.principal_did,
            )
            &&& plan::gates_safe(s.gates) && plan::gates_safe(c.claims.required_gates)
        },
        plan::hop_head_unsafe(agent_did, s) is None && plan::hop_tail_unsafe(s) is None ==> {
            &&& datalog::safe_text(agent_did)
            &&& datalog::all_safe(strings::listing(s.tools))
            &&& datalog::all_safe(strings::listing(s.resources))
            &&& plan::gates_safe(s.gates)
        },
{
    plan::lemma_all_safe(strings::listing(s.tools));
    plan::lemma_all_safe(strings::listing(s.resources));
    plan::lemma_gates_safe(s.gates);
    plan::lemma_gates_safe(c.claims.required_gates);
}

/// A safe text cannot end the string term it stands in, nor the line.
pub proof fn a_safe_text_stays_in_its_quotes(s: Seq<char>, i: int)
    requires
        datalog::safe_text(s),
        0 <= i < s.len(),
    ensures
        s[i] != '"' && s[i] != '\\' && s[i] != '\n' && s[i] != '\r' && s[i] != '\0',
        datalog::quotable(s),
{
    assert(s.contains(s[i]));
}

// -- What a token reports of its chain ------------------------------------------------------------------

/// The audit view of a chain has an entry for every hop, in order, that says what the hop says but for
/// its keys and signatures; the credential, the issuer and the principal are the token's.
pub proof fn an_audit_view_mirrors_the_chain(t: TokenView, i: int)
    requires
        0 <= i < t.hops.len(),
    ensures
        hop::audit_chain(t).vc_id == t.vc_id,
        hop::audit_chain(t).issuer_did == t.issuer,
        hop::audit_chain(t).principal_did == t.principal,
        hop::audit_chain(t).entries.len() == t.hops.len(),
        ({
            let e = hop::audit_chain(t).entries[i];
            let h = t.hops[i];
            &&& e.agent_did == h.agent_did && e.depth == h.depth
            &&& e.tools == h.tools && e.resources == h.resources
            &&& e.budget_usd == h.budget_usd && e.max_action_cost == h.max_action_cost
            &&& e.issued_at == h.issued_at && e.expires_at == h.expires_at
        }),
{
}

/// The gates that a token reports for a tool are its gates on that tool, and no others.
pub proof fn reported_gates_are_those_of_the_tool(
    gates: Seq<GateView>,
    tool: Seq<char>,
    x: GateView,
)
    ensures
        rules::designating(gates, tool).contains(x) <==> gates.contains(x) && x.tool == tool,
{
    let none = Seq::<GateView>::empty();
    assert(rules::effective_gates(gates, none, tool) == rules::designating(gates, tool));
    if rules::designating(gates, tool).contains(x) {
        rules::only_gates_of_the_tool_are_in_force(gates, none, tool, x);
    }
    if gates.contains(x) && x.tool == tool {
        rules::no_gate_is_dropped(gates, none, tool, x);
    }
}

/// A use that verifies is within all of the chain: for a token that came from a credential by minting and
/// narrowing, the action uses a tool of every step's scope, no later than every step's expiry, and keeps
/// to every step's cap and resource list; where the credential names a principal, it is on that
/// principal's behalf.
pub proof fn a_verified_use_is_within_every_step(
    tokens: Seq<TokenView>,
    steps: Seq<laws::Step>,
    c: CredentialView,
    j: int,
    k: int,
    a: ActionView,
    resolver: Option<&dyn DidResolver>,
    now: int,
)
    requires
        laws::is_run(tokens, steps, c),
        0 <= k <= j < tokens.len(),
        token::verify_outcome(tokens[j], a, resolver, now, Ok(())),
    ensures
        steps[k].scope.tools.contains(a.tool),
        now <= tokens[j].hops[k].expires_at,
        steps[k].scope.max_action_cost is Some ==> a.cost is Some && a.cost->0
            <= steps[k].scope.max_action_cost->0,
        strings::listing(steps[k].scope.resources).len() > 0 ==> a.resource is Some
            && steps[k].scope.resources.contains(a.resource->0),
        c.claims.on_behalf_of is Some ==> a.acting_for == Some(
            c.claims.on_behalf_of->0.principal_did,
        ),
{
    let t = tokens[j];
    laws::lemma_run_blocks(tokens, steps, c, j);
    a_verified_token_was_checked_throughout(t, a, resolver, now);
    let blocks = reading::contents(t);
    assert(laws::block_of_step(t, steps, c, 0));
    assert(laws::block_of_step(t, steps, c, k));
    laws::mint_facts_are_not_request_facts(c, steps[0].scope);
    laws::permitted_action_keeps_to_the_minted_scope(
        a,
        now,
        blocks,
        c,
        steps[0].scope,
        t.hops[0].expires_at,
    );
    if k > 0 {
        laws::permitted_action_keeps_to_every_hop(
            a,
            now,
            blocks,
            k,
            steps[k].agent_did,
            steps[k].key,
            steps[k].scope,
            t.hops[k].expires_at,
        );
    }
}

/// A success is the authorizer's: verification gives `Ok` only where an authorizer over the request's own
/// facts, the one policy and the token's own blocks may answer so.
pub proof fn a_success_is_the_authorizers(
    t: TokenView,
    a: ActionView,
    resolver: Option<&dyn DidResolver>,
    now: int,
)
    requires
        token::verify_outcome(t, a, resolver, now, Ok(())),
    ensures
        exists|answer: Result<(), Seq<char>>|
            #[trigger] biscuit::may_answer(
                token::request_of(a, now),
                seq![datalog::PolicyView::Allow],
                reading::contents(t),
                reading::AUTHORIZER_MAX_SECS,
                answer,
            ) && answer is Ok,
{
    let request = token::request_of(a, now);
    let policies = seq![datalog::PolicyView::Allow];
    let blocks = reading::contents(t);
    let max_secs = reading::AUTHORIZER_MAX_SECS;
    assert(token::authorizer_gave(a, request, blocks, Ok(())));
    let answer = choose|answer: Result<(), Seq<char>>|
        #[trigger] biscuit::may_answer(request, policies, blocks, max_secs, answer) && Ok::<
            (),
            ErrorView,
        >(()) == token::answered(a, answer);
    assert(answer is Ok);
}

/// The request says what is asked for: the time, the tool, and the resource, the cost and the principal
/// where the action has them, and nothing else.
pub proof fn a_request_says_what_is_asked_for(a: ActionView, now: int, f: datalog::FactView)
    ensures
        token::request_of(a, now).contains(f) <==> {
            ||| f == datalog::date_fact("time"@, time::second_of(now))
            ||| f == datalog::str_fact("operation"@, a.tool)
            ||| a.resource is Some && f == datalog::str_fact("resource"@, a.resource->0)
            ||| a.cost is Some && f == datalog::int_fact("action_cost"@, a.cost->0 as int)
            ||| a.acting_for is Some && f == datalog::str_fact("acting_for"@, a.acting_for->0)
        },
{
    let none = Seq::<datalog::FactView>::empty();
    let base = seq![
        datalog::date_fact("time"@, time::second_of(now)),
        datalog::str_fact("operation"@, a.tool),
    ];
    let res = match a.resource {
        Some(x) => seq![datalog::str_fact("resource"@, x)],
        None => none,
    };
    let cost = plan::opt_int_fact("action_cost"@, a.cost);
    let who = match a.acting_for {
        Some(x) => seq![datalog::str_fact("acting_for"@, x)],
        None => none,
    };
    let all = token::request_of(a, now);
    assert(all == base + res + cost + who);
    let (n, m, k) = (2int, 2 + res.len() as int, 2 + res.len() + cost.len() as int);
    assert(all[0] == base[0] && all[1] == base[1]);
    if a.resource is Some {
        assert(all[n] == res[0]);
    }
    if a.cost is Some {
        assert(all[m] == cost[0]);
    }
    if a.acting_for is Some {
        assert(all[k] == who[0]);
    }
    if all.contains(f) {
        let i = choose|i: int| 0 <= i < all.len() && all[i] == f;
        if i >= k {
            assert(all[i] == who[i - k]);
        } else if i >= m {
            assert(all[i] == cost[i - m]);
        } else if i >= n {
            assert(all[i] == res[i - n]);
        } else {
            assert(all[i] == base[i]);
        }
    }
}

/// A chain that does not fit together is refused before any of its agents is looked at, and an agent
/// whose DID would have to be resolved is refused where there is no resolver.
pub proof fn a_chain_that_does_not_fit_is_refused(
    t: TokenView,
    resolver: Option<&dyn DidResolver>,
    r: Result<(), ErrorView>,
)
    requires
        t.hops.len() > 0,
        token::identity_outcome(t, resolver, r),
    ensures
        reading::contents(t).len() != t.hops.len() ==> r is Err
            && r->Err_0 is InvalidBiscuitSignature,
        t.subject != t.hops[0].agent_did ==> r is Err && r->Err_0 is InvalidBiscuitSignature,
        reading::contents(t).len() == t.hops.len() && t.subject == t.hops[0].agent_did
            && !text::begins(t.subject, "did:key:"@) && resolver is None ==> r is Err
            && r->Err_0 is ResolverRequired,
{
    let blocks = reading::contents(t);
    if blocks.len() == t.hops.len() && t.subject == t.hops[0].agent_did && !text::begins(
        t.subject,
        "did:key:"@,
    ) && resolver is None {
        assert(token::chain_error(t, blocks) is None);
        assert(!token::hop_attestation(t.hops[0], resolver, Ok(())));
        assert(!token::hop_proved(t, blocks, resolver, 0));
        if let Err(e) = r {
            let k = choose|k: int|
                {
                    &&& 0 <= k < t.hops.len()
                    &&& #[trigger] token::hop_fails(t, blocks, resolver, k, e)
                    &&& forall|i: int|
                        0 <= i < k ==> #[trigger] token::hop_proved(t, blocks, resolver, i)
                };
            assert(k == 0);
        }
    }
}

/// A token that is given out holds no text that could break out of its quotes, and an expiry that has a
/// date.
pub proof fn a_given_out_token_has_only_safe_texts(
    t: TokenView,
    c: CredentialView,
    parent: TokenView,
    s: ScopeView,
    ttl_secs: u64,
    agent_did: Seq<char>,
    key: Seq<u8>,
    attestation: Seq<u8>,
    now: int,
)
    ensures
        token::mint_outcome(c, s, ttl_secs, agent_did, key, attestation, now, Ok(t)) ==> {
            &&& datalog::safe_text(c.id) && datalog::safe_text(c.issuer) && datalog::safe_text(
                c.subject,
            )
            &&& datalog::all_safe(strings::listing(s.tools))
            &&& datalog::all_safe(strings::listing(s.resources))
            &&& plan::gates_safe(s.gates) && plan::gates_safe(c.claims.required_gates)
            &&& datalog::dateable(time::second_of(rules::mint_expiry(c, ttl_secs, now)))
        },
        token::attenuate_outcome(
            parent,
            s,
            ttl_secs,
            agent_did,
            key,
            attestation,
            now,
            Ok(t),
        ) ==> {
            &&& datalog::safe_text(agent_did)
            &&& datalog::all_safe(strings::listing(s.tools))
            &&& datalog::all_safe(strings::listing(s.resources))
            &&& plan::gates_safe(s.gates)
            &&& !biscuit::bytes_sealed(parent.biscuit)
        },
{
    a_written_block_has_only_safe_texts(c, s, agent_did);
}

/// An unsafe text is reported as one that is there: the first of a list that is not safe.
pub proof fn an_unsafe_text_is_reported(v: Seq<Seq<char>>)
    ensures
        datalog::first_unsafe(v) matches Some(x) ==> v.contains(x) && !datalog::safe_text(x),
        datalog::first_unsafe(v) is None <==> datalog::all_safe(v),
    decreases v.len(),
{
    plan::lemma_all_safe(v);
    if v.len() > 0 && datalog::safe_text(v[0]) {
        let t = v.skip(1);
        an_unsafe_text_is_reported(t);
        if datalog::first_unsafe(t) is Some {
            let x = datalog::first_unsafe(t)->0;
            let i = choose|i: int| 0 <= i < t.len() && t[i] == x;
            assert(v[i + 1] == x);
        }
    } else if v.len() > 0 {
        assert(v.contains(v[0]));
    }
}

/// Bytes are read as a token exactly where the root key decodes and they decode under it; the error tells
/// the two apart.
pub proof fn a_token_is_read_under_its_root_key(bytes: Seq<u8>, root: Seq<u8>)
    ensures
        reading::decode_error(bytes, root) is None <==> biscuit::biscuit_key_decodes(root) is Ok
            && biscuit::token_decoded(bytes, root) is Ok,
        biscuit::biscuit_key_decodes(root) is Err ==> reading::decode_error(bytes, root) is Some
            && reading::decode_error(bytes, root)->0 is InvalidKeyMaterial,
        biscuit::biscuit_key_decodes(root) is Ok && biscuit::token_decoded(bytes, root) is Err
            ==> reading::decode_error(bytes, root) is Some && reading::decode_error(
            bytes,
            root,
        )->0 is InvalidBiscuitSignature,
{
}

/// The views of results keep success and failure apart, and the views of lists keep every item in its
/// place.
pub proof fn views_keep_results_and_places(
    r: Result<(), AgentCredsError>,
    d: Result<token::DelegationToken, AgentCredsError>,
    hops: Seq<hop::Hop>,
    texts: Seq<String>,
    i: int,
)
    requires
        0 <= i < hops.len(),
        i < texts.len(),
    ensures
        did::unit_view(r) is Ok <==> r is Ok,
        r is Err ==> did::unit_view(r)->Err_0 == r->Err_0@,
        token::token_view(d) is Ok <==> d is Ok,
        d is Ok ==> token::token_view(d)->Ok_0 == d->Ok_0@,
        d is Err ==> token::token_view(d)->Err_0 == d->Err_0@,
        hop::hop_views(hops).len() == hops.len(),
        hop::hop_views(hops)[i] == hops[i]@,
        text::views(texts).len() == texts.len(),
        text::views(texts)[i] == texts[i]@,
{
}

} // verus!
