//! The rules a token is held to: when one may be minted or narrowed, when it may be used,
//! how it is bound to its credential, and how its gates are met.

use vstd::prelude::*;
use vstd::string::*;
use crate::approval;
use crate::approval::{
    ApprovalEvidence, ApproverDirectory, DirectoryView, EvidenceView, Gate, GateView,
};
use crate::delegation::action::{Action, ActionView};
use crate::delegation::hop;
use crate::delegation::hop::{Hop, TokenView};
use crate::delegation::plan;
use crate::delegation::scope;
use crate::delegation::scope::{Scope, ScopeView};
use crate::did::{KeyView, TrustAnchor};
use crate::error::{AgentCredsError, ErrorView};
use crate::text;
use crate::time;
use crate::time::Timestamp;
use crate::vc::{CapabilityCredential, ClaimsView, CredentialView};

verus! {

// -- Resources ----------------------------------------------------------------------------------

/// Whether a resource falls under one of a list of patterns. A pattern is a prefix, without
/// a `*` at its end.
pub open spec fn within_authority(resource: Seq<char>, patterns: Seq<Seq<char>>) -> bool {
    exists|i: int|
        0 <= i < patterns.len() && text::begins(
            resource,
            text::without_suffix(#[trigger] patterns[i], '*'),
        )
}

/// Whether a resource falls under one of a list of patterns.
pub fn resource_within_authority(resource: &str, patterns: &Vec<String>) -> (r: bool)
    ensures
        r == within_authority(resource@, text::views(patterns@)),
{
    let ghost all = text::views(patterns@);
    for i in 0..patterns.len()
        invariant
            all == text::views(patterns@),
            forall|j: int|
                0 <= j < i ==> !text::begins(
                    resource@,
                    text::without_suffix(#[trigger] all[j], '*'),
                ),
    {
        assert(all[i as int] == patterns@[i as int]@);
        let prefix = text::strip_suffix_char(patterns[i].as_str(), '*');
        if text::starts_with(resource, prefix.as_str()) {
            return true;
        }
    }
    false
}

/// A resource of a list that no pattern covers, or `None` where all are covered.
fn first_beyond(resources: &Vec<String>, patterns: &Vec<String>) -> (r: Option<String>)
    ensures
        r is None == (forall|x: Seq<char>|
            text::views(resources@).contains(x) ==> within_authority(
                x,
                text::views(patterns@),
            )),
        r is Some ==> text::views(resources@).contains(r->0@) && !within_authority(
            r->0@,
            text::views(patterns@),
        ),
{
    let ghost all = text::views(resources@);
    for i in 0..resources.len()
        invariant
            all == text::views(resources@),
            forall|j: int|
                0 <= j < i ==> within_authority(#[trigger] all[j], text::views(patterns@)),
    {
        assert(all[i as int] == resources@[i as int]@);
        if !resource_within_authority(resources[i].as_str(), patterns) {
            assert(all.contains(all[i as int]));
            return Some(resources[i].clone());
        }
    }
    None
}

// -- Minting ------------------------------------------------------------------------------------

/// The scope that a credential grants.
pub open spec fn granted(c: ClaimsView) -> ScopeView {
    scope::plain_scope(c.tools.to_set(), c.budget_usd, c.max_delegation_depth)
}

/// The error of a scope that is wider than another: it names a tool that the other lacks, or
/// the budget or depth where there is none.
pub open spec fn widening(child: ScopeView, parent: ScopeView, e: ErrorView) -> bool {
    &&& e is ScopeWideningAttempt
    &&& if child.tools.subset_of(parent.tools) {
        e->ScopeWideningAttempt_capability == "budget or depth"@
    } else {
        child.tools.contains(e->ScopeWideningAttempt_capability) && !parent.tools.contains(
            e->ScopeWideningAttempt_capability,
        )
    }
}

/// Whether every resource of a set is covered by patterns.
pub open spec fn all_within(resources: Set<Seq<char>>, patterns: Seq<Seq<char>>) -> bool {
    forall|r: Seq<char>| resources.contains(r) ==> #[trigger] within_authority(r, patterns)
}

/// Whether the resources of a scope lie within those that a credential grants.
pub open spec fn within_grant(c: ClaimsView, s: ScopeView) -> bool {
    c.resources is Some ==> all_within(s.resources, c.resources->0)
}

/// Whether the resources of a scope lie within those that the principal of a credential is
/// entitled to.
pub open spec fn within_consent(c: ClaimsView, s: ScopeView) -> bool {
    c.on_behalf_of is Some && c.on_behalf_of->0.resource_authority.len() > 0 ==> all_within(
        s.resources,
        c.on_behalf_of->0.resource_authority,
    )
}

/// The detail of the error for a token that would live too long.
pub open spec fn ttl_detail(c: ClaimsView, ttl_secs: u64) -> Seq<char> {
    "autonomy level "@ + text::decimal(c.autonomy_level as nat) + " permits at most "@
        + text::decimal(c.token_ttl_ceiling_secs as nat) + "s, requested "@ + text::decimal(
        ttl_secs as nat,
    )
        + "s                      - raise the credential's oversight level or ask for a shorter token"@
}

/// Whether an agent may mint a token of a scope and a lifetime from a credential.
pub open spec fn mint_allowed(
    c: CredentialView,
    s: ScopeView,
    ttl_secs: u64,
    agent_did: Seq<char>,
    now: int,
) -> bool {
    &&& now <= c.expiration_date
    &&& agent_did == c.subject
    &&& ttl_secs <= c.claims.token_ttl_ceiling_secs
    &&& scope::subset_scope(s, granted(c.claims))
    &&& within_grant(c.claims, s)
    &&& within_consent(c.claims, s)
}

/// The errors that minting a token that may not be minted gives.
pub open spec fn mint_refused(
    c: CredentialView,
    s: ScopeView,
    ttl_secs: u64,
    agent_did: Seq<char>,
    now: int,
    e: ErrorView,
) -> bool {
    if now > c.expiration_date {
        e == (ErrorView::CredentialExpired { expired_at: time::rfc3339_text(c.expiration_date) })
    } else if agent_did != c.subject {
        e == plan::broken("minting agent is not the credential subject"@)
    } else if ttl_secs > c.claims.token_ttl_ceiling_secs {
        e == (ErrorView::OutOfBounds {
            field: "ttl_secs"@,
            detail: ttl_detail(c.claims, ttl_secs),
        })
    } else if !scope::subset_scope(s, granted(c.claims)) {
        widening(s, granted(c.claims), e)
    } else if !within_grant(c.claims, s) {
        &&& e is ScopeWideningAttempt
        &&& s.resources.contains(e->ScopeWideningAttempt_capability)
        &&& !within_authority(e->ScopeWideningAttempt_capability, c.claims.resources->0)
    } else if !within_consent(c.claims, s) {
        &&& e is ConsentViolation
        &&& s.resources.contains(e->ConsentViolation_capability)
        &&& !within_authority(
            e->ConsentViolation_capability,
            c.claims.on_behalf_of->0.resource_authority,
        )
    } else {
        false
    }
}

/// When a token expires that is minted now for a lifetime: no later than its credential.
pub open spec fn mint_expiry(c: CredentialView, ttl_secs: u64, now: int) -> int {
    let until = time::later_by(now, ttl_secs as int);
    if c.expiration_date <= until {
        c.expiration_date
    } else {
        until
    }
}

/// Checks that an agent may mint a token of a scope and a lifetime from a credential.
///
/// # Errors
/// `CredentialExpired`; `InvalidBiscuitSignature` where the agent is not the subject;
/// `OutOfBounds` for a lifetime above the ceiling; `ScopeWideningAttempt` and
/// `ConsentViolation` for a scope beyond the grant or the principal's entitlement.
pub fn check_mint(
    vc: &CapabilityCredential,
    scope: &Scope,
    ttl_secs: u64,
    agent_did: &str,
    now: Timestamp,
) -> (r: Result<(), AgentCredsError>)
    ensures
        r is Ok == mint_allowed(vc@, scope@, ttl_secs, agent_did@, now@),
        r is Err ==> mint_refused(vc@, scope@, ttl_secs, agent_did@, now@, r->Err_0@),
{
    if !vc.is_valid_at(now) {
        return Err(
            AgentCredsError::CredentialExpired { expired_at: vc.expiration_date.to_rfc3339() },
        );
    }
    if !text::str_eq(agent_did, vc.subject_did()) {
        return Err(
            plan::bad_biscuit("minting agent is not the credential subject".to_owned()),
        );
    }
    let ceiling = vc.claims.token_ttl_ceiling_secs;
    if ttl_secs > ceiling {
        let mut detail = "autonomy level ".to_owned();
        detail.append(text::u64_text(vc.claims.autonomy_level as u64).as_str());
        detail.append(" permits at most ");
        detail.append(text::u64_text(ceiling).as_str());
        detail.append("s, requested ");
        detail.append(text::u64_text(ttl_secs).as_str());
        detail.append(
            "s                      - raise the credential's oversight level or ask for a shorter token",
        );
        return Err(AgentCredsError::OutOfBounds { field: "ttl_secs", detail });
    }
    let vc_scope = Scope::with_budget_and_depth(
        text::strings_clone(&vc.claims.tools),
        vc.claims.budget_usd,
        vc.claims.max_delegation_depth,
    );
    if !scope.is_subset_of(&vc_scope) {
        return Err(widening_error(scope, &vc_scope));
    }
    if let Some(allowed) = &vc.claims.resources {
        let beyond = first_beyond(scope.resources.items(), allowed);
        if let Some(capability) = beyond {
            return Err(AgentCredsError::ScopeWideningAttempt { capability });
        }
    }
    if let Some(obo) = &vc.claims.on_behalf_of {
        if obo.resource_authority.len() > 0 {
            let beyond = first_beyond(scope.resources.items(), &obo.resource_authority);
            if let Some(capability) = beyond {
                return Err(AgentCredsError::ConsentViolation { capability });
            }
        }
    }
    Ok(())
}

/// The error of a scope that is wider than another.
fn widening_error(child: &Scope, parent: &Scope) -> (r: AgentCredsError)
    ensures
        widening(child@, parent@, r@),
{
    let capability = match child.first_widening_capability(parent) {
        Some(c) => c,
        None => "budget or depth".to_owned(),
    };
    AgentCredsError::ScopeWideningAttempt { capability }
}

// -- Narrowing ----------------------------------------------------------------------------------

/// The depth below a hop.
pub open spec fn next_depth(depth: u32) -> u32 {
    if depth < u32::MAX {
        (depth + 1) as u32
    } else {
        u32::MAX
    }
}

/// The tightest budget of a chain: that of its authority block or of one of its hops.
pub open spec fn chain_budget(t: TokenView) -> Option<u32> {
    hop::tighter(t.root_budget, hop::least_budget(t.hops))
}

/// The scope that a token's leaf may hand on: the leaf's tools, the remaining depth, and the
/// tightest budget and cap of the chain.
pub open spec fn leaf_scope(t: TokenView) -> ScopeView {
    let leaf = t.hops.last();
    ScopeView {
        max_action_cost: t.max_action_cost,
        ..scope::plain_scope(
            leaf.tools.to_set(),
            chain_budget(t),
            if leaf.depth <= t.root_max_depth {
                (t.root_max_depth - leaf.depth) as u32
            } else {
                0
            },
        )
    }
}

/// A scope as it is compared with the leaf's: without its resources and gates, and with no
/// more depth than is left.
pub open spec fn compared(s: ScopeView, left: u32) -> ScopeView {
    ScopeView {
        max_action_cost: s.max_action_cost,
        ..scope::plain_scope(
            s.tools,
            s.budget_usd,
            if s.max_depth <= left {
                s.max_depth
            } else {
                left
            },
        )
    }
}

/// Whether a token may be narrowed to a scope.
pub open spec fn narrow_allowed(t: TokenView, s: ScopeView) -> bool {
    &&& hop::depth_of(t.hops) < t.root_max_depth
    &&& scope::subset_scope(compared(s, leaf_scope(t).max_depth), leaf_scope(t))
}

/// The errors that narrowing a token that may not be narrowed gives.
pub open spec fn narrow_refused(t: TokenView, s: ScopeView, e: ErrorView) -> bool {
    if hop::depth_of(t.hops) >= t.root_max_depth {
        e == (ErrorView::DelegationDepthExceeded {
            depth: next_depth(t.hops.last().depth),
            max: t.root_max_depth,
        })
    } else if !scope::subset_scope(compared(s, leaf_scope(t).max_depth), leaf_scope(t)) {
        widening(s, leaf_scope(t), e)
    } else {
        false
    }
}

/// When a hop expires that a chain is narrowed to now: no later than its parent.
pub open spec fn hop_expiry(parent_expiry: int, ttl_secs: u64, now: int) -> int {
    let bounded = if ttl_secs <= crate::vc::MAX_VALID_FOR_SECS {
        ttl_secs as int
    } else {
        crate::vc::MAX_VALID_FOR_SECS as int
    };
    let until = time::later_by(now, bounded);
    if parent_expiry <= until {
        parent_expiry
    } else {
        until
    }
}

/// The depth below a hop.
pub fn deeper(depth: u32) -> (r: u32)
    ensures
        r == next_depth(depth),
{
    if depth < u32::MAX {
        depth + 1
    } else {
        u32::MAX
    }
}

/// Checks that a chain whose leaf is `leaf`, of `depth` delegations, may be narrowed to a
/// scope.
///
/// # Errors
/// `DelegationDepthExceeded` or `ScopeWideningAttempt`.
pub(crate) fn check_narrow(
    leaf: &Hop,
    depth: u32,
    root_max_depth: u32,
    budget: Option<u32>,
    cap: Option<u32>,
    narrow: &Scope,
    Ghost(t): Ghost<TokenView>,
) -> (r: Result<(), AgentCredsError>)
    requires
        t.hops.last() == leaf@,
        depth == hop::depth_of(t.hops),
        root_max_depth == t.root_max_depth,
        budget == chain_budget(t),
        cap == t.max_action_cost,
    ensures
        r is Ok == narrow_allowed(t, narrow@),
        r is Err ==> narrow_refused(t, narrow@, r->Err_0@),
{
    if depth >= root_max_depth {
        return Err(
            AgentCredsError::DelegationDepthExceeded {
                depth: deeper(leaf.depth),
                max: root_max_depth,
            },
        );
    }
    let left: u32 = if leaf.depth <= root_max_depth {
        root_max_depth - leaf.depth
    } else {
        0
    };
    let mut parent_scope = Scope::with_budget_and_depth(
        text::strings_clone(&leaf.tools),
        budget,
        left,
    );
    parent_scope.max_action_cost = cap;
    let mut child_scope = Scope::with_budget_and_depth(
        text::strings_clone(narrow.tools.items()),
        narrow.budget_usd,
        if narrow.max_depth <= left {
            narrow.max_depth
        } else {
            left
        },
    );
    child_scope.max_action_cost = narrow.max_action_cost;
    assert(parent_scope@ == leaf_scope(t));
    assert(child_scope@ == compared(narrow@, left));
    if !child_scope.is_subset_of(&parent_scope) {
        return Err(widening_error(&child_scope, &parent_scope));
    }
    Ok(())
}

// -- Use ----------------------------------------------------------------------------------------

/// Why a token may not be used for an action at a time, apart from its signatures and its
/// Datalog: it was delegated too often, it has expired, or the request does not act for the
/// token's principal.
pub open spec fn use_refused(t: TokenView, a: ActionView, now: int) -> Option<ErrorView> {
    if hop::depth_of(t.hops) > t.root_max_depth {
        Some(
            ErrorView::DelegationDepthExceeded {
                depth: hop::depth_of(t.hops),
                max: t.root_max_depth,
            },
        )
    } else if now > hop::min_expiry(t.hops) {
        Some(
            ErrorView::TokenExpired {
                secs_ago: ((now - hop::min_expiry(t.hops)) / (time::NANOS_PER_SEC as int)) as i64,
            },
        )
    } else if t.principal is Some && a.acting_for != t.principal {
        Some(
            ErrorView::ActingForMismatch { required: t.principal->0, asserted: a.acting_for },
        )
    } else {
        None
    }
}

// -- Rooting ------------------------------------------------------------------------------------

/// The scope that was read from a token's authority block.
pub open spec fn root_scope(t: TokenView) -> ScopeView {
    ScopeView {
        max_action_cost: t.max_action_cost,
        ..scope::plain_scope(t.root_tools.to_set(), t.root_budget, t.root_max_depth)
    }
}

/// Whether the principal of a token is that of a credential, and the token's resources are
/// within the principal's entitlement.
pub open spec fn same_principal(t: TokenView, c: ClaimsView) -> bool {
    match (t.principal, c.on_behalf_of) {
        (Some(p), Some(o)) => p == o.principal_did && (o.resource_authority.len() > 0
            ==> all_within(t.root_resources.to_set(), o.resource_authority)),
        (None, None) => true,
        _ => false,
    }
}

/// Whether the resources of a token's authority block lie within those that a credential
/// grants.
pub open spec fn resources_granted(t: TokenView, c: ClaimsView) -> bool {
    c.resources is Some ==> all_within(t.root_resources.to_set(), c.resources->0)
}

/// Whether a token is one that a credential can be the root of.
pub open spec fn rooted_in(t: TokenView, c: CredentialView) -> bool {
    &&& t.vc_id == c.id
    &&& t.issuer == c.issuer
    &&& t.subject == c.subject
    &&& scope::subset_scope(root_scope(t), granted(c.claims))
    &&& resources_granted(t, c.claims)
    &&& same_principal(t, c.claims)
}

/// The errors of a token that is not rooted in a credential.
pub open spec fn root_refused(t: TokenView, c: CredentialView, e: ErrorView) -> bool {
    if t.vc_id != c.id {
        e == plan::broken("token vc_id does not match the supplied credential"@)
    } else if t.issuer != c.issuer {
        e == plan::broken("token issuer does not match the credential issuer"@)
    } else if t.subject != c.subject {
        e == plan::broken("token subject does not match the credential subject"@)
    } else if !scope::subset_scope(root_scope(t), granted(c.claims)) {
        widening(root_scope(t), granted(c.claims), e)
    } else if !resources_granted(t, c.claims) {
        &&& e is ScopeWideningAttempt
        &&& t.root_resources.contains(e->ScopeWideningAttempt_capability)
        &&& !within_authority(e->ScopeWideningAttempt_capability, c.claims.resources->0)
    } else {
        match (t.principal, c.claims.on_behalf_of) {
            (Some(p), Some(o)) => if p != o.principal_did {
                e == (ErrorView::PrincipalMismatch { expected: o.principal_did, got: p })
            } else {
                &&& e is ConsentViolation
                &&& o.resource_authority.len() > 0
                &&& t.root_resources.contains(e->ConsentViolation_capability)
                &&& !within_authority(e->ConsentViolation_capability, o.resource_authority)
            },
            (Some(p), None) => e == (ErrorView::PrincipalMismatch { expected: "<none>"@, got: p }),
            (None, Some(o)) => e == (ErrorView::PrincipalMismatch {
                expected: o.principal_did,
                got: "<none>"@,
            }),
            (None, None) => false,
        }
    }
}

/// Checks that the principal of a token is that of a credential, and that the token's
/// resources are within the principal's entitlement.
pub(crate) fn check_principal(
    principal: &Option<String>,
    root_resources: &Vec<String>,
    vc: &CapabilityCredential,
    Ghost(t): Ghost<TokenView>,
) -> (r: Result<(), AgentCredsError>)
    requires
        t.principal == text::opt_view(*principal),
        t.root_resources == text::views(root_resources@),
        t.vc_id == vc@.id,
        t.issuer == vc@.issuer,
        t.subject == vc@.subject,
        scope::subset_scope(root_scope(t), granted(vc@.claims)),
        resources_granted(t, vc@.claims),
    ensures
        r is Ok == same_principal(t, vc@.claims),
        r is Err ==> root_refused(t, vc@, r->Err_0@),
{
    match (principal, &vc.claims.on_behalf_of) {
        (Some(tok), Some(obo)) => {
            if !text::str_eq(tok.as_str(), obo.principal_did.as_str()) {
                return Err(
                    AgentCredsError::PrincipalMismatch {
                        expected: obo.principal_did.clone(),
                        got: tok.clone(),
                    },
                );
            }
            if obo.resource_authority.len() > 0 {
                let beyond = first_beyond(root_resources, &obo.resource_authority);
                if let Some(capability) = beyond {
                    assert(t.root_resources.to_set().contains(capability@));
                    return Err(AgentCredsError::ConsentViolation { capability });
                }
            }
            Ok(())
        },
        (Some(tok), None) => Err(
            AgentCredsError::PrincipalMismatch { expected: "<none>".to_owned(), got: tok.clone() },
        ),
        (None, Some(obo)) => Err(
            AgentCredsError::PrincipalMismatch {
                expected: obo.principal_did.clone(),
                got: "<none>".to_owned(),
            },
        ),
        (None, None) => Ok(()),
    }
}

/// Checks that the scope read from a token's authority block is within a credential's grant.
pub(crate) fn check_root_scope(
    root_tools: &Vec<String>,
    root_budget: Option<u32>,
    root_max_depth: u32,
    cap: Option<u32>,
    vc: &CapabilityCredential,
    Ghost(t): Ghost<TokenView>,
) -> (r: Result<(), AgentCredsError>)
    requires
        t.root_tools == text::views(root_tools@),
        t.root_budget == root_budget,
        t.root_max_depth == root_max_depth,
        t.max_action_cost == cap,
    ensures
        r is Ok == scope::subset_scope(root_scope(t), granted(vc@.claims)),
        r is Err ==> widening(root_scope(t), granted(vc@.claims), r->Err_0@),
{
    let vc_scope = Scope::with_budget_and_depth(
        text::strings_clone(&vc.claims.tools),
        vc.claims.budget_usd,
        vc.claims.max_delegation_depth,
    );
    let mut root = Scope::with_budget_and_depth(
        text::strings_clone(root_tools),
        root_budget,
        root_max_depth,
    );
    root.max_action_cost = cap;
    assert(root@ == root_scope(t));
    if !root.is_subset_of(&vc_scope) {
        return Err(widening_error(&root, &vc_scope));
    }
    Ok(())
}

/// Checks that the resources read from a token's authority block are within a credential's
/// grant.
pub(crate) fn check_root_resources(
    root_resources: &Vec<String>,
    vc: &CapabilityCredential,
    Ghost(t): Ghost<TokenView>,
) -> (r: Result<(), AgentCredsError>)
    requires
        t.root_resources == text::views(root_resources@),
    ensures
        r is Ok == resources_granted(t, vc@.claims),
        r is Err ==> {
            &&& r->Err_0@ is ScopeWideningAttempt
            &&& t.root_resources.contains(r->Err_0@->ScopeWideningAttempt_capability)
            &&& !within_authority(
                r->Err_0@->ScopeWideningAttempt_capability,
                vc@.claims.resources->0,
            )
        },
{
    if let Some(allowed) = &vc.claims.resources {
        let beyond = first_beyond(root_resources, allowed);
        if let Some(capability) = beyond {
            assert(t.root_resources.to_set().contains(capability@));
            return Err(AgentCredsError::ScopeWideningAttempt { capability });
        }
    }
    Ok(())
}

// -- Gates --------------------------------------------------------------------------------------

/// The gates of a list that designate a tool.
pub open spec fn designating(gates: Seq<GateView>, tool: Seq<char>) -> Seq<GateView>
    decreases gates.len(),
{
    if gates.len() == 0 {
        Seq::<GateView>::empty()
    } else if gates.last().tool == tool {
        designating(gates.drop_last(), tool).push(gates.last())
    } else {
        designating(gates.drop_last(), tool)
    }
}

/// The gates in force for a tool: the token's, and those of its credential that are not among
/// them.
pub open spec fn effective_gates(
    gates: Seq<GateView>,
    required: Seq<GateView>,
    tool: Seq<char>,
) -> Seq<GateView>
    decreases required.len(),
{
    if required.len() == 0 {
        designating(gates, tool)
    } else {
        let before = effective_gates(gates, required.drop_last(), tool);
        if required.last().tool == tool && !before.contains(required.last()) {
            before.push(required.last())
        } else {
            before
        }
    }
}

/// What a gate is checked against: the action, the anchor, the approver directory where there
/// is one, and the time.
#[verifier::ext_equal]
pub struct GateSetting {
    pub action: ActionView,
    pub anchor_did: Seq<char>,
    pub anchor_key: KeyView,
    pub directory: Option<DirectoryView>,
    pub now_unix: i64,
}

/// Whether evidence satisfies a gate kind: anchor-signed evidence an `approval`,
/// approver-signed evidence an `approval-key` where there is a directory.
pub open spec fn satisfies(e: EvidenceView, kind: Seq<char>, g: GateSetting) -> bool {
    &&& e.kind == kind
    &&& if kind == "approval"@ {
        approval::evidence_verifies(e, g.action, g.anchor_key, g.now_unix) is Ok
    } else {
        &&& kind == "approval-key"@
        &&& g.directory is Some
        &&& approval::directory_evidence_verifies(
            e,
            g.action,
            g.directory->0,
            g.anchor_did,
            g.anchor_key,
            g.now_unix,
            None,
        ) is Ok
    }
}

/// The identifier of the first evidence that satisfies a gate kind.
pub open spec fn first_satisfying(
    evidence: Seq<EvidenceView>,
    kind: Seq<char>,
    g: GateSetting,
) -> Option<Seq<char>>
    decreases evidence.len(),
{
    if evidence.len() == 0 {
        None
    } else if satisfies(evidence[0], kind, g) {
        Some(evidence[0].approval_id)
    } else {
        first_satisfying(evidence.skip(1), kind, g)
    }
}

/// A denial of an action with a reason.
pub open spec fn denied(a: ActionView, reason: Seq<char>) -> ErrorView {
    ErrorView::ActionDenied { action: a.tool, reason }
}

/// What checking one gate gives: the identifier of the evidence relied upon, or a denial.
pub open spec fn gate_outcome(
    kind: Seq<char>,
    evidence: Seq<EvidenceView>,
    recognized: Seq<Seq<char>>,
    g: GateSetting,
) -> Result<Seq<char>, ErrorView> {
    if !recognized.contains(kind) {
        Err(
            denied(
                g.action,
                "unrecognized execution-time gate kind '"@ + kind
                    + "' - failing closed (R10)"@,
            ),
        )
    } else if kind == "approval"@ {
        match first_satisfying(evidence, kind, g) {
            Some(id) => Ok(id),
            None => Err(
                denied(
                    g.action,
                    "action requires human approval; no valid execution-time evidence presented (R10)"@,
                ),
            ),
        }
    } else if kind == "approval-key"@ {
        if g.directory is None {
            Err(
                denied(
                    g.action,
                    "action requires approver-key approval but no approver directory is configured (R10)"@,
                ),
            )
        } else {
            match first_satisfying(evidence, kind, g) {
                Some(id) => Ok(id),
                None => Err(
                    denied(
                        g.action,
                        "action requires approver-key approval; no valid approver-signed evidence presented (R10)"@,
                    ),
                ),
            }
        }
    } else {
        Err(
            denied(
                g.action,
                "gate kind '"@ + kind
                    + "' is recognized but this verifier has no handler for it - failing closed rather than treating an unenforced designation as met"@,
            ),
        )
    }
}

/// What checking gates in order gives: the identifiers of the evidence relied upon, or the
/// first denial.
pub open spec fn gates_outcome(
    gates: Seq<GateView>,
    evidence: Seq<EvidenceView>,
    recognized: Seq<Seq<char>>,
    g: GateSetting,
) -> Result<Seq<Seq<char>>, ErrorView>
    decreases gates.len(),
{
    if gates.len() == 0 {
        Ok(Seq::<Seq<char>>::empty())
    } else {
        match gates_outcome(gates.drop_last(), evidence, recognized, g) {
            Err(e) => Err(e),
            Ok(ids) => match gate_outcome(gates.last().kind, evidence, recognized, g) {
                Err(e) => Err(e),
                Ok(id) => Ok(ids.push(id)),
            },
        }
    }
}

/// The views of a sequence of evidence.
pub open spec fn evidence_views(v: Seq<ApprovalEvidence>) -> Seq<EvidenceView> {
    v.map_values(|e: ApprovalEvidence| e@)
}

/// The views of a sequence of borrowed texts.
pub open spec fn str_views(v: Seq<&str>) -> Seq<Seq<char>> {
    v.map_values(|s: &str| s@)
}

/// The setting of a gate check.
pub open spec fn gate_setting(
    action: &Action,
    anchor: &TrustAnchor,
    directory: Option<&ApproverDirectory>,
    now_unix: i64,
) -> GateSetting {
    GateSetting {
        action: action@,
        anchor_did: anchor.did_text(),
        anchor_key: anchor.key(),
        directory: match directory {
            Some(d) => Some(d@),
            None => None,
        },
        now_unix,
    }
}

/// The gates of a list that designate a tool.
pub fn gates_for(gates: &Vec<Gate>, tool: &str) -> (r: Vec<Gate>)
    ensures
        approval::gate_views(r@) == designating(approval::gate_views(gates@), tool@),
{
    let ghost all = approval::gate_views(gates@);
    let mut out: Vec<Gate> = Vec::new();
    assert(approval::gate_views(out@) =~= designating(all.take(0), tool@));
    for i in 0..gates.len()
        invariant
            all == approval::gate_views(gates@),
            approval::gate_views(out@) == designating(all.take(i as int), tool@),
    {
        let ghost before = approval::gate_views(out@);
        assert(all.take(i + 1).drop_last() =~= all.take(i as int));
        assert(all.take(i + 1).last() == gates@[i as int]@);
        if text::str_eq(gates[i].tool.as_str(), tool) {
            let g = gates[i].clone();
            out.push(g);
            assert(approval::gate_views(out@) =~= before.push(g@));
        }
    }
    assert(all.take(all.len() as int) =~= all);
    out
}

/// The gates in force for a tool.
pub fn gates_in_force(gates: &Vec<Gate>, required: &Vec<Gate>, tool: &str) -> (r: Vec<Gate>)
    ensures
        approval::gate_views(r@) == effective_gates(
            approval::gate_views(gates@),
            approval::gate_views(required@),
            tool@,
        ),
{
    let ghost own = approval::gate_views(gates@);
    let ghost all = approval::gate_views(required@);
    let mut out = gates_for(gates, tool);
    assert(all.take(0) =~= Seq::<GateView>::empty());
    for i in 0..required.len()
        invariant
            all == approval::gate_views(required@),
            approval::gate_views(out@) == effective_gates(own, all.take(i as int), tool@),
    {
        let ghost before = approval::gate_views(out@);
        assert(all.take(i + 1).drop_last() =~= all.take(i as int));
        assert(all.take(i + 1).last() == required@[i as int]@);
        if text::str_eq(required[i].tool.as_str(), tool) && !approval::has_gate(&out, &required[i]) {
            let g = required[i].clone();
            out.push(g);
            assert(approval::gate_views(out@) =~= before.push(g@));
        }
    }
    assert(all.take(all.len() as int) =~= all);
    out
}

/// The first evidence that satisfies a gate kind.
fn find_evidence(
    kind: &str,
    action: &Action,
    anchor: &TrustAnchor,
    evidence: &[ApprovalEvidence],
    directory: Option<&ApproverDirectory>,
    now_unix: i64,
) -> (r: Option<String>)
    requires
        kind@ == "approval"@ || kind@ == "approval-key"@,
    ensures
        match r {
            Some(id) => first_satisfying(
                evidence_views(evidence@),
                kind@,
                gate_setting(action, anchor, directory, now_unix),
            ) == Some(id@),
            None => first_satisfying(
                evidence_views(evidence@),
                kind@,
                gate_setting(action, anchor, directory, now_unix),
            ) is None,
        },
{
    let ghost all = evidence_views(evidence@);
    let ghost g = gate_setting(action, anchor, directory, now_unix);
    assert(all.skip(0) =~= all);
    for i in 0..evidence.len()
        invariant
            all == evidence_views(evidence@),
            g == gate_setting(action, anchor, directory, now_unix),
            kind@ == "approval"@ || kind@ == "approval-key"@,
            first_satisfying(all, kind@, g) == first_satisfying(all.skip(i as int), kind@, g),
    {
        let e = &evidence[i];
        assert(all.skip(i as int)[0] == e@);
        assert(all.skip(i as int).skip(1) =~= all.skip(i + 1));
        let good = text::str_eq(e.kind.as_str(), kind) && (if text::str_eq(kind, Gate::APPROVAL) {
            e.verify(action, anchor, now_unix).is_ok()
        } else {
            match directory {
                Some(d) => e.verify_with_directory(action, d, anchor, now_unix, None).is_ok(),
                None => false,
            }
        });
        if good {
            return Some(e.approval_id.clone());
        }
    }
    None
}

fn denial(action: &Action, reason: String) -> (r: AgentCredsError)
    ensures
        r@ == denied(action@, reason@),
{
    AgentCredsError::ActionDenied { action: action.tool.clone(), reason }
}

fn is_recognized(kind: &str, recognized: &[&str]) -> (r: bool)
    ensures
        r == str_views(recognized@).contains(kind@),
{
    for i in 0..recognized.len()
        invariant
            forall|j: int| 0 <= j < i ==> str_views(recognized@)[j] != kind@,
    {
        assert(str_views(recognized@)[i as int] == recognized@[i as int]@);
        if text::str_eq(recognized[i], kind) {
            return true;
        }
    }
    false
}

/// Check one gate kind: the identifier of the evidence relied upon.
///
/// # Errors
/// `ActionDenied` where the kind is not recognized, has no handler, or no evidence satisfies
/// it.
pub fn check_gate(
    kind: &str,
    action: &Action,
    anchor: &TrustAnchor,
    evidence: &[ApprovalEvidence],
    directory: Option<&ApproverDirectory>,
    recognized_kinds: &[&str],
    now_unix: i64,
) -> (r: Result<String, AgentCredsError>)
    ensures
        match r {
            Ok(id) => gate_outcome(
                kind@,
                evidence_views(evidence@),
                str_views(recognized_kinds@),
                gate_setting(action, anchor, directory, now_unix),
            ) == Ok::<Seq<char>, ErrorView>(id@),
            Err(e) => gate_outcome(
                kind@,
                evidence_views(evidence@),
                str_views(recognized_kinds@),
                gate_setting(action, anchor, directory, now_unix),
            ) == Err::<Seq<char>, ErrorView>(e@),
        },
{
    if !is_recognized(kind, recognized_kinds) {
        let mut reason = "unrecognized execution-time gate kind '".to_owned();
        reason.append(kind);
        reason.append("' - failing closed (R10)");
        return Err(denial(action, reason));
    }
    if text::str_eq(kind, Gate::APPROVAL) {
        return match find_evidence(kind, action, anchor, evidence, directory, now_unix) {
            Some(id) => Ok(id),
            None => Err(
                denial(
                    action,
                    "action requires human approval; no valid execution-time evidence presented (R10)".to_owned(),
                ),
            ),
        };
    }
    if text::str_eq(kind, Gate::APPROVAL_KEY) {
        if directory.is_none() {
            return Err(
                denial(
                    action,
                    "action requires approver-key approval but no approver directory is configured (R10)".to_owned(),
                ),
            );
        }
        return match find_evidence(kind, action, anchor, evidence, directory, now_unix) {
            Some(id) => Ok(id),
            None => Err(
                denial(
                    action,
                    "action requires approver-key approval; no valid approver-signed evidence presented (R10)".to_owned(),
                ),
            ),
        };
    }
    let mut reason = "gate kind '".to_owned();
    reason.append(kind);
    reason.append(
        "' is recognized but this verifier has no handler for it - failing closed rather than treating an unenforced designation as met",
    );
    Err(denial(action, reason))
}

/// Check gates in order: the identifiers of the evidence relied upon.
///
/// # Errors
/// As [`check_gate`], for the first gate that is not met.
pub fn check_gates(
    gates: &Vec<Gate>,
    action: &Action,
    anchor: &TrustAnchor,
    evidence: &[ApprovalEvidence],
    directory: Option<&ApproverDirectory>,
    recognized_kinds: &[&str],
    now_unix: i64,
) -> (r: Result<Vec<String>, AgentCredsError>)
    ensures
        match r {
            Ok(ids) => gates_outcome(
                approval::gate_views(gates@),
                evidence_views(evidence@),
                str_views(recognized_kinds@),
                gate_setting(action, anchor, directory, now_unix),
            ) == Ok::<Seq<Seq<char>>, ErrorView>(text::views(ids@)),
            Err(e) => gates_outcome(
                approval::gate_views(gates@),
                evidence_views(evidence@),
                str_views(recognized_kinds@),
                gate_setting(action, anchor, directory, now_unix),
            ) == Err::<Seq<Seq<char>>, ErrorView>(e@),
        },
{
    let ghost all = approval::gate_views(gates@);
    let ghost ev = evidence_views(evidence@);
    let ghost known = str_views(recognized_kinds@);
    let ghost g = gate_setting(action, anchor, directory, now_unix);
    let mut ids: Vec<String> = Vec::new();
    assert(text::views(ids@) =~= Seq::<Seq<char>>::empty());
    for i in 0..gates.len()
        invariant
            all == approval::gate_views(gates@),
            ev == evidence_views(evidence@),
            known == str_views(recognized_kinds@),
            g == gate_setting(action, anchor, directory, now_unix),
            gates_outcome(all.take(i as int), ev, known, g) == Ok::<Seq<Seq<char>>, ErrorView>(
                text::views(ids@),
            ),
    {
        let ghost before = text::views(ids@);
        proof {
            assert(all.take(i + 1).drop_last() =~= all.take(i as int));
            assert(all.take(i + 1).last() == gates@[i as int]@);
        }
        match check_gate(
            gates[i].kind.as_str(),
            action,
            anchor,
            evidence,
            directory,
            recognized_kinds,
            now_unix,
        ) {
            Ok(id) => {
                let ghost x = id@;
                ids.push(id);
                assert(text::views(ids@) =~= before.push(x));
            },
            Err(e) => {
                proof {
                    lemma_denial_sticks(all, i + 1, ev, known, g);
                }
                return Err(e);
            },
        }
    }
    assert(all.take(all.len() as int) =~= all);
    Ok(ids)
}

proof fn lemma_denial_sticks(
    gates: Seq<GateView>,
    n: int,
    evidence: Seq<EvidenceView>,
    recognized: Seq<Seq<char>>,
    g: GateSetting,
)
    requires
        0 <= n <= gates.len(),
        gates_outcome(gates.take(n), evidence, recognized, g) is Err,
    ensures
        gates_outcome(gates, evidence, recognized, g) == gates_outcome(
            gates.take(n),
            evidence,
            recognized,
            g,
        ),
    decreases gates.len(),
{
    if n == gates.len() {
        assert(gates.take(n) =~= gates);
    } else {
        assert(gates.drop_last().take(n) =~= gates.take(n));
        lemma_denial_sticks(gates.drop_last(), n, evidence, recognized, g);
    }
}

/// Every gate that a token or its credential puts on a tool is in force for it.
pub proof fn no_gate_is_dropped(
    gates: Seq<GateView>,
    required: Seq<GateView>,
    tool: Seq<char>,
    x: GateView,
)
    requires
        x.tool == tool,
        gates.contains(x) || required.contains(x),
    ensures
        effective_gates(gates, required, tool).contains(x),
    decreases gates.len() + required.len(),
{
    if required.len() == 0 {
        let i = choose|i: int| 0 <= i < gates.len() && gates[i] == x;
        let rest = designating(gates.drop_last(), tool);
        if i == gates.len() - 1 {
            assert(rest.push(x).last() == x);
            assert(designating(gates, tool).contains(x));
        } else {
            assert(gates.drop_last()[i] == x);
            no_gate_is_dropped(gates.drop_last(), required, tool, x);
            let j = choose|j: int| 0 <= j < rest.len() && rest[j] == x;
            if gates.last().tool == tool {
                assert(rest.push(gates.last())[j] == x);
            }
        }
    } else {
        let before = effective_gates(gates, required.drop_last(), tool);
        if required.last() == x {
            if !before.contains(x) {
                assert(before.push(x).last() == x);
            }
        } else {
            if required.contains(x) {
                let i = choose|i: int| 0 <= i < required.len() && required[i] == x;
                assert(required.drop_last()[i] == x);
            }
            no_gate_is_dropped(gates, required.drop_last(), tool, x);
            let j = choose|j: int| 0 <= j < before.len() && before[j] == x;
            assert(before.push(required.last())[j] == x);
        }
    }
}

/// Gates that are all met are each of a recognized kind, and evidence satisfies each: a kind
/// that is not recognized, or has no handler, is never met.
pub proof fn every_gate_is_met(
    gates: Seq<GateView>,
    evidence: Seq<EvidenceView>,
    recognized: Seq<Seq<char>>,
    g: GateSetting,
    x: GateView,
)
    requires
        gates_outcome(gates, evidence, recognized, g) is Ok,
        gates.contains(x),
    ensures
        recognized.contains(x.kind),
        exists|i: int| 0 <= i < evidence.len() && satisfies(#[trigger] evidence[i], x.kind, g),
    decreases gates.len(),
{
    let i = choose|i: int| 0 <= i < gates.len() && gates[i] == x;
    if i == gates.len() - 1 {
        assert(gate_outcome(x.kind, evidence, recognized, g) is Ok);
        lemma_first_satisfying(evidence, x.kind, g);
    } else {
        assert(gates.drop_last()[i] == x);
        every_gate_is_met(gates.drop_last(), evidence, recognized, g, x);
    }
}

proof fn lemma_first_satisfying(evidence: Seq<EvidenceView>, kind: Seq<char>, g: GateSetting)
    requires
        first_satisfying(evidence, kind, g) is Some,
    ensures
        exists|i: int| 0 <= i < evidence.len() && satisfies(#[trigger] evidence[i], kind, g),
    decreases evidence.len(),
{
    if !satisfies(evidence[0], kind, g) {
        lemma_first_satisfying(evidence.skip(1), kind, g);
        let rest = evidence.skip(1);
        let i = choose|i: int| 0 <= i < rest.len() && satisfies(#[trigger] rest[i], kind, g);
        assert(evidence[i + 1] == rest[i]);
    }
}

/// What meets a gate kind: evidence of that very kind that the anchor's key accepts for the
/// action where the kind is `approval`, that the configured directory accepts for the action where
/// it is `approval-key`, and nothing where it is any other.
pub proof fn a_gate_is_satisfied_by_its_own_kind(e: EvidenceView, kind: Seq<char>, g: GateSetting)
    ensures
        satisfies(e, kind, g) ==> e.kind == kind,
        satisfies(e, kind, g) ==> kind == "approval"@ || kind == "approval-key"@,
        kind == "approval"@ && e.kind == kind ==> (satisfies(e, kind, g)
            <==> approval::evidence_verifies(e, g.action, g.anchor_key, g.now_unix) is Ok),
        kind == "approval-key"@ && e.kind == kind ==> (satisfies(e, kind, g) <==> g.directory is Some
            && approval::directory_evidence_verifies(
            e,
            g.action,
            g.directory->0,
            g.anchor_did,
            g.anchor_key,
            g.now_unix,
            None,
        ) is Ok),
{
    reveal_strlit("approval");
    reveal_strlit("approval-key");
    assert("approval"@.len() != "approval-key"@.len());
}

/// The search for evidence looks at every item, in order: it gives the identifier of the first that
/// is good for the kind, and nothing only where none is.
pub proof fn the_first_satisfying_evidence_is_found(
    evidence: Seq<EvidenceView>,
    kind: Seq<char>,
    g: GateSetting,
)
    ensures
        match first_satisfying(evidence, kind, g) {
            Some(id) => exists|i: int|
                {
                    &&& 0 <= i < evidence.len()
                    &&& satisfies(#[trigger] evidence[i], kind, g)
                    &&& id == evidence[i].approval_id
                    &&& forall|j: int| 0 <= j < i ==> !satisfies(#[trigger] evidence[j], kind, g)
                },
            None => forall|j: int|
                0 <= j < evidence.len() ==> !satisfies(#[trigger] evidence[j], kind, g),
        },
    decreases evidence.len(),
{
    if evidence.len() > 0 && !satisfies(evidence[0], kind, g) {
        let rest = evidence.skip(1);
        the_first_satisfying_evidence_is_found(rest, kind, g);
        match first_satisfying(rest, kind, g) {
            Some(id) => {
                let i = choose|i: int|
                    {
                        &&& 0 <= i < rest.len()
                        &&& satisfies(#[trigger] rest[i], kind, g)
                        &&& id == rest[i].approval_id
                        &&& forall|j: int| 0 <= j < i ==> !satisfies(#[trigger] rest[j], kind, g)
                    };
                assert(evidence[i + 1] == rest[i]);
                assert forall|j: int| 0 <= j < i + 1 implies !satisfies(
                    #[trigger] evidence[j],
                    kind,
                    g,
                ) by {
                    if j > 0 {
                        assert(rest[j - 1] == evidence[j]);
                    }
                }
            },
            None => {
                assert forall|j: int| 0 <= j < evidence.len() implies !satisfies(
                    #[trigger] evidence[j],
                    kind,
                    g,
                ) by {
                    if j > 0 {
                        assert(rest[j - 1] == evidence[j]);
                    }
                }
            },
        }
    } else if evidence.len() > 0 {
        assert(satisfies(evidence[0], kind, g));
    }
}

/// A gate of a recognized kind is met wherever some item of the evidence, at whatever place,
/// satisfies it; what is relied upon is then the first such item.
pub proof fn evidence_at_any_place_meets_a_gate(
    kind: Seq<char>,
    evidence: Seq<EvidenceView>,
    recognized: Seq<Seq<char>>,
    g: GateSetting,
    i: int,
)
    requires
        recognized.contains(kind),
        0 <= i < evidence.len(),
        satisfies(evidence[i], kind, g),
        forall|j: int| 0 <= j < i ==> !satisfies(#[trigger] evidence[j], kind, g),
    ensures
        gate_outcome(kind, evidence, recognized, g) == Ok::<Seq<char>, ErrorView>(
            evidence[i].approval_id,
        ),
{
    the_first_satisfying_evidence_is_found(evidence, kind, g);
    a_gate_is_satisfied_by_its_own_kind(evidence[i], kind, g);
    let id = first_satisfying(evidence, kind, g)->0;
    let k = choose|k: int|
        {
            &&& 0 <= k < evidence.len()
            &&& satisfies(#[trigger] evidence[k], kind, g)
            &&& id == evidence[k].approval_id
            &&& forall|j: int| 0 <= j < k ==> !satisfies(#[trigger] evidence[j], kind, g)
        };
    assert(k == i);
}

/// A gate fails closed: where its kind is not recognized, or no item of the evidence satisfies it,
/// the action is denied.
pub proof fn an_unmet_gate_denies_the_action(
    kind: Seq<char>,
    evidence: Seq<EvidenceView>,
    recognized: Seq<Seq<char>>,
    g: GateSetting,
)
    ensures
        gate_outcome(kind, evidence, recognized, g) is Ok <==> {
            &&& recognized.contains(kind)
            &&& exists|i: int| 0 <= i < evidence.len() && satisfies(#[trigger] evidence[i], kind, g)
        },
        match gate_outcome(kind, evidence, recognized, g) {
            Ok(id) => exists|i: int|
                0 <= i < evidence.len() && satisfies(#[trigger] evidence[i], kind, g) && id
                    == evidence[i].approval_id,
            Err(e) => e is ActionDenied && e->ActionDenied_action == g.action.tool,
        },
{
    the_first_satisfying_evidence_is_found(evidence, kind, g);
    if exists|i: int| 0 <= i < evidence.len() && satisfies(#[trigger] evidence[i], kind, g) {
        let i = choose|i: int| 0 <= i < evidence.len() && satisfies(#[trigger] evidence[i], kind, g);
        a_gate_is_satisfied_by_its_own_kind(evidence[i], kind, g);
    }
}

/// Gates are checked one by one: they are all met exactly where each is, with one identifier for
/// each in the order of the gates; otherwise the first that is not met decides.
pub proof fn gates_are_checked_one_by_one(
    gates: Seq<GateView>,
    evidence: Seq<EvidenceView>,
    recognized: Seq<Seq<char>>,
    g: GateSetting,
)
    ensures
        match gates_outcome(gates, evidence, recognized, g) {
            Ok(ids) => {
                &&& ids.len() == gates.len()
                &&& forall|i: int|
                    0 <= i < gates.len() ==> gate_outcome(
                        (#[trigger] gates[i]).kind,
                        evidence,
                        recognized,
                        g,
                    ) == Ok::<Seq<char>, ErrorView>(ids[i])
            },
            Err(e) => exists|i: int|
                {
                    &&& 0 <= i < gates.len()
                    &&& gate_outcome((#[trigger] gates[i]).kind, evidence, recognized, g) == Err::<
                        Seq<char>,
                        ErrorView,
                    >(e)
                    &&& forall|j: int|
                        0 <= j < i ==> gate_outcome(
                            (#[trigger] gates[j]).kind,
                            evidence,
                            recognized,
                            g,
                        ) is Ok
                },
        },
    decreases gates.len(),
{
    if gates.len() > 0 {
        let front = gates.drop_last();
        let n = front.len() as int;
        gates_are_checked_one_by_one(front, evidence, recognized, g);
        assert(gates[n] == gates.last());
        assert forall|i: int| 0 <= i < n implies front[i] == #[trigger] gates[i] by {}
        match gates_outcome(front, evidence, recognized, g) {
            Ok(ids) => {
                assert forall|i: int| 0 <= i < n implies gate_outcome(
                    (#[trigger] gates[i]).kind,
                    evidence,
                    recognized,
                    g,
                ) == Ok::<Seq<char>, ErrorView>(ids[i]) by {
                    assert(front[i] == gates[i]);
                }
            },
            Err(e) => {
                let i = choose|i: int|
                    {
                        &&& 0 <= i < front.len()
                        &&& gate_outcome((#[trigger] front[i]).kind, evidence, recognized, g)
                            == Err::<Seq<char>, ErrorView>(e)
                        &&& forall|j: int|
                            0 <= j < i ==> gate_outcome(
                                (#[trigger] front[j]).kind,
                                evidence,
                                recognized,
                                g,
                            ) is Ok
                    };
                assert(front[i] == gates[i]);
                assert forall|j: int| 0 <= j < i implies gate_outcome(
                    (#[trigger] gates[j]).kind,
                    evidence,
                    recognized,
                    g,
                ) is Ok by {
                    assert(front[j] == gates[j]);
                }
            },
        }
    }
}

/// Carried evidence that covers every gate is enough: where each gate is of a recognized kind and
/// some item satisfies it, the check succeeds with one identifier for each gate, that of the first
/// item which satisfies it.
pub proof fn evidence_for_every_gate_is_enough(
    gates: Seq<GateView>,
    evidence: Seq<EvidenceView>,
    recognized: Seq<Seq<char>>,
    g: GateSetting,
)
    requires
        forall|i: int| 0 <= i < gates.len() ==> recognized.contains((#[trigger] gates[i]).kind),
        forall|i: int|
            0 <= i < gates.len() ==> exists|k: int|
                0 <= k < evidence.len() && satisfies(
                    #[trigger] evidence[k],
                    (#[trigger] gates[i]).kind,
                    g,
                ),
    ensures
        gates_outcome(gates, evidence, recognized, g) is Ok,
        gates_outcome(gates, evidence, recognized, g)->Ok_0.len() == gates.len(),
        forall|i: int, k: int|
            #![trigger gates[i], evidence[k]]
            0 <= i < gates.len() && 0 <= k < evidence.len() && satisfies(
                evidence[k],
                gates[i].kind,
                g,
            ) && (forall|j: int|
                0 <= j < k ==> !satisfies(#[trigger] evidence[j], gates[i].kind, g))
                ==> gates_outcome(gates, evidence, recognized, g)->Ok_0[i]
                == evidence[k].approval_id,
{
    gates_are_checked_one_by_one(gates, evidence, recognized, g);
    assert forall|i: int| 0 <= i < gates.len() implies gate_outcome(
        (#[trigger] gates[i]).kind,
        evidence,
        recognized,
        g,
    ) is Ok by {
        an_unmet_gate_denies_the_action(gates[i].kind, evidence, recognized, g);
    }
    assert forall|i: int, k: int|
        #![trigger gates[i], evidence[k]]
        0 <= i < gates.len() && 0 <= k < evidence.len() && satisfies(evidence[k], gates[i].kind, g)
            && (forall|j: int|
            0 <= j < k ==> !satisfies(
                #[trigger] evidence[j],
                gates[i].kind,
                g,
            )) implies gates_outcome(gates, evidence, recognized, g)->Ok_0[i]
        == evidence[k].approval_id by {
        evidence_at_any_place_meets_a_gate(gates[i].kind, evidence, recognized, g, k);
    }
}

/// The gates in force for a tool are those that the token or its credential puts on that very tool,
/// and no others.
pub proof fn only_gates_of_the_tool_are_in_force(
    gates: Seq<GateView>,
    required: Seq<GateView>,
    tool: Seq<char>,
    x: GateView,
)
    requires
        effective_gates(gates, required, tool).contains(x),
    ensures
        x.tool == tool,
        gates.contains(x) || required.contains(x),
    decreases gates.len() + required.len(),
{
    let all = effective_gates(gates, required, tool);
    let i = choose|i: int| 0 <= i < all.len() && all[i] == x;
    if required.len() == 0 {
        if gates.len() > 0 {
            let front = gates.drop_last();
            let rest = designating(front, tool);
            if gates.last().tool == tool && i == rest.len() {
                assert(gates[gates.len() - 1] == x);
            } else {
                assert(rest[i] == x);
                only_gates_of_the_tool_are_in_force(front, required, tool, x);
                if front.contains(x) {
                    let j = choose|j: int| 0 <= j < front.len() && front[j] == x;
                    assert(gates[j] == x);
                }
            }
        }
    } else {
        let front = required.drop_last();
        let before = effective_gates(gates, front, tool);
        if i == before.len() {
            assert(required[required.len() - 1] == x);
        } else {
            assert(before[i] == x);
            only_gates_of_the_tool_are_in_force(gates, front, tool, x);
            if front.contains(x) {
                let j = choose|j: int| 0 <= j < front.len() && front[j] == x;
                assert(required[j] == x);
            }
        }
    }
}

// -- What the rules let through ---------------------------------------------------------------------

/// A resource is within authority where one of the patterns, without a `*` at its end, is how the
/// resource begins; with no pattern at all, nothing is.
pub proof fn a_pattern_covers_what_begins_with_it(
    resource: Seq<char>,
    patterns: Seq<Seq<char>>,
    prefix: Seq<char>,
    rest: Seq<char>,
)
    ensures
        patterns.len() == 0 ==> !within_authority(resource, patterns),
        patterns.contains(prefix.push('*')) ==> within_authority(prefix + rest, patterns),
        patterns.contains(resource) && (resource.len() > 0 ==> resource.last() != '*')
            ==> within_authority(resource, patterns),
        within_authority(resource, patterns) ==> exists|i: int|
            0 <= i < patterns.len() && {
                let p = #[trigger] patterns[i];
                let n = if p.len() > 0 && p.last() == '*' {
                    p.len() - 1
                } else {
                    p.len() as int
                };
                &&& n <= resource.len()
                &&& forall|j: int| 0 <= j < n ==> resource[j] == p[j]
            },
{
    if patterns.contains(prefix.push('*')) {
        let i = choose|i: int| 0 <= i < patterns.len() && patterns[i] == prefix.push('*');
        assert(text::without_suffix(patterns[i], '*') =~= prefix);
        assert((prefix + rest).take(prefix.len() as int) =~= prefix);
    }
    if patterns.contains(resource) {
        let i = choose|i: int| 0 <= i < patterns.len() && patterns[i] == resource;
        assert(resource.take(resource.len() as int) =~= resource);
        if resource.len() > 0 ==> resource.last() != '*' {
            assert(text::begins(resource, text::without_suffix(patterns[i], '*')));
        }
    }
    if within_authority(resource, patterns) {
        let i = choose|i: int|
            0 <= i < patterns.len() && text::begins(
                resource,
                text::without_suffix(#[trigger] patterns[i], '*'),
            );
        let p = patterns[i];
        let q = text::without_suffix(p, '*');
        assert forall|j: int| 0 <= j < q.len() implies resource[j] == p[j] by {
            assert(resource.take(q.len() as int)[j] == q[j]);
        }
    }
}

/// A token may be minted only for the credential's own subject, while the credential lasts, for no
/// longer than its ceiling, and for no more than it grants: tools among its own, no higher budget, no
/// cap above its budget, no greater depth, and resources that both the grant and the principal's
/// consent cover where they list any. Where all this holds, it may.
pub proof fn minting_stays_within_the_grant(
    c: CredentialView,
    s: ScopeView,
    ttl_secs: u64,
    agent_did: Seq<char>,
    now: int,
)
    ensures
        mint_allowed(c, s, ttl_secs, agent_did, now) <==> {
            &&& now <= c.expiration_date
            &&& agent_did == c.subject
            &&& ttl_secs <= c.claims.token_ttl_ceiling_secs
            &&& forall|t: Seq<char>| #[trigger] s.tools.contains(t) ==> c.claims.tools.contains(t)
            &&& s.budget_usd is Some && c.claims.budget_usd is Some ==> s.budget_usd->0
                <= c.claims.budget_usd->0
            &&& s.max_action_cost is Some && c.claims.budget_usd is Some ==> s.max_action_cost->0
                <= c.claims.budget_usd->0
            &&& s.max_depth <= c.claims.max_delegation_depth
            &&& c.claims.resources is Some ==> forall|r: Seq<char>| #[trigger]
                s.resources.contains(r) ==> within_authority(r, c.claims.resources->0)
            &&& c.claims.on_behalf_of is Some && c.claims.on_behalf_of->0.resource_authority.len() > 0
                ==> forall|r: Seq<char>| #[trigger]
                s.resources.contains(r) ==> within_authority(
                    r,
                    c.claims.on_behalf_of->0.resource_authority,
                )
        },
{
    let p = granted(c.claims);
    assert forall|t: Seq<char>| c.claims.tools.contains(t) == #[trigger] p.tools.contains(t) by {}
    if mint_allowed(c, s, ttl_secs, agent_did, now) {
        assert forall|t: Seq<char>| #[trigger]
            s.tools.contains(t) implies c.claims.tools.contains(t) by {
            assert(p.tools.contains(t));
        }
    }
    if c.claims.resources is Some && (forall|r: Seq<char>| #[trigger]
        s.resources.contains(r) ==> within_authority(r, c.claims.resources->0)) {
        assert(all_within(s.resources, c.claims.resources->0));
    }
}

/// What minting gives out ends with the credential or the lifetime asked for, whichever comes first.
pub proof fn a_minted_expiry_is_the_earlier_end(c: CredentialView, ttl_secs: u64, now: int)
    requires
        time::time_in_range(now + ttl_secs * time::NANOS_PER_SEC),
    ensures
        ({
            let end = mint_expiry(c, ttl_secs, now);
            &&& end <= c.expiration_date
            &&& end <= now + ttl_secs * time::NANOS_PER_SEC
            &&& end == c.expiration_date || end == now + ttl_secs * time::NANOS_PER_SEC
        }),
{
}

/// What a hop gives out ends with its parent or the lifetime asked for, whichever comes first.
pub proof fn a_hop_expiry_is_the_earlier_end(parent_expiry: int, ttl_secs: u64, now: int)
    requires
        ttl_secs <= crate::vc::MAX_VALID_FOR_SECS,
        time::time_in_range(now + ttl_secs * time::NANOS_PER_SEC),
    ensures
        ({
            let end = hop_expiry(parent_expiry, ttl_secs, now);
            &&& end <= parent_expiry
            &&& end <= now + ttl_secs * time::NANOS_PER_SEC
            &&& end == parent_expiry || end == now + ttl_secs * time::NANOS_PER_SEC
        }),
{
}

/// A token may be narrowed only while its depth bound leaves room, and only to a scope within its
/// leaf's: tools among the leaf's, no budget above one that any hop or the root set, and a cap that
/// is stated where one is in force, no looser than it and no higher than those budgets.
pub proof fn narrowing_stays_within_the_leaf(t: TokenView, s: ScopeView)
    requires
        t.hops.len() > 0,
    ensures
        narrow_allowed(t, s) ==> {
            &&& hop::depth_of(t.hops) < t.root_max_depth
            &&& forall|x: Seq<char>| #[trigger]
                s.tools.contains(x) ==> t.hops.last().tools.contains(x)
            &&& forall|i: int|
                0 <= i < t.hops.len() && (#[trigger] t.hops[i]).budget_usd is Some ==> (
                s.budget_usd is Some ==> s.budget_usd->0 <= t.hops[i].budget_usd->0) && (
                s.max_action_cost is Some ==> s.max_action_cost->0 <= t.hops[i].budget_usd->0)
            &&& t.root_budget is Some ==> (s.budget_usd is Some ==> s.budget_usd->0
                <= t.root_budget->0) && (s.max_action_cost is Some ==> s.max_action_cost->0
                <= t.root_budget->0)
            &&& t.max_action_cost is Some ==> s.max_action_cost is Some && s.max_action_cost->0
                <= t.max_action_cost->0
        },
{
    if narrow_allowed(t, s) {
        let leaf = leaf_scope(t);
        let child = compared(s, leaf.max_depth);
        assert(scope::subset_scope(child, leaf));
        hop::least_budget_is_tightest(t.hops);
        assert forall|x: Seq<char>| #[trigger]
            s.tools.contains(x) implies t.hops.last().tools.contains(x) by {
            assert(child.tools.contains(x));
            assert(leaf.tools.contains(x));
        }
    }
}

/// Nothing else stands in the way of narrowing: a scope of the leaf's tools, with budgets and caps no
/// looser than any in the chain, may be narrowed to wherever the depth bound leaves room.
pub proof fn a_scope_within_the_leaf_may_be_narrowed_to(t: TokenView, s: ScopeView)
    requires
        t.hops.len() > 0,
        hop::depth_of(t.hops) < t.root_max_depth,
        forall|x: Seq<char>| #[trigger] s.tools.contains(x) ==> t.hops.last().tools.contains(x),
        forall|i: int|
            0 <= i < t.hops.len() && (#[trigger] t.hops[i]).budget_usd is Some ==> (s.budget_usd is Some
                ==> s.budget_usd->0 <= t.hops[i].budget_usd->0) && (s.max_action_cost is Some
                ==> s.max_action_cost->0 <= t.hops[i].budget_usd->0),
        t.root_budget is Some ==> (s.budget_usd is Some ==> s.budget_usd->0 <= t.root_budget->0) && (
        s.max_action_cost is Some ==> s.max_action_cost->0 <= t.root_budget->0),
        t.max_action_cost is Some ==> s.max_action_cost is Some && s.max_action_cost->0
            <= t.max_action_cost->0,
    ensures
        narrow_allowed(t, s),
{
    let leaf = leaf_scope(t);
    let child = compared(s, leaf.max_depth);
    hop::least_budget_is_tightest(t.hops);
    assert forall|x: Seq<char>| #[trigger] child.tools.contains(x) implies leaf.tools.contains(x) by {
        assert(t.hops.last().tools.contains(x));
    }
    assert(child.tools.subset_of(leaf.tools));
}

/// A token may be used exactly where it is no deeper than its bound, no hop of it has expired, and
/// where it names a principal the action is on that principal's behalf.
pub proof fn a_usable_token_is_current_and_on_behalf(t: TokenView, a: ActionView, now: int)
    requires
        t.hops.len() > 0,
    ensures
        use_refused(t, a, now) is None <==> {
            &&& hop::depth_of(t.hops) <= t.root_max_depth
            &&& forall|i: int| 0 <= i < t.hops.len() ==> now <= (#[trigger] t.hops[i]).expires_at
            &&& t.principal is Some ==> a.acting_for == t.principal
        },
        use_refused(t, a, now) matches Some(e) ==> e is DelegationDepthExceeded || e is TokenExpired
            || e is ActingForMismatch,
        hop::depth_of(t.hops) > t.root_max_depth ==> use_refused(t, a, now) is Some
            && use_refused(t, a, now)->0 is DelegationDepthExceeded,
        hop::depth_of(t.hops) <= t.root_max_depth && (exists|i: int|
            0 <= i < t.hops.len() && now > (#[trigger] t.hops[i]).expires_at) ==> use_refused(
            t,
            a,
            now,
        ) is Some && use_refused(t, a, now)->0 is TokenExpired,
{
    hop::min_expiry_is_earliest(t.hops);
}

/// A token is rooted in a credential exactly where it names the credential, its issuer and its
/// subject, grants no more at its root than the credential does, and has the credential's principal
/// with that principal's consent, or neither has one.
pub proof fn a_rooted_token_is_within_its_credential(t: TokenView, c: CredentialView)
    ensures
        rooted_in(t, c) <==> {
            &&& t.vc_id == c.id
            &&& t.issuer == c.issuer
            &&& t.subject == c.subject
            &&& forall|x: Seq<char>| #[trigger] t.root_tools.contains(x) ==> c.claims.tools.contains(x)
            &&& t.root_budget is Some && c.claims.budget_usd is Some ==> t.root_budget->0
                <= c.claims.budget_usd->0
            &&& t.max_action_cost is Some && c.claims.budget_usd is Some ==> t.max_action_cost->0
                <= c.claims.budget_usd->0
            &&& t.root_max_depth <= c.claims.max_delegation_depth
            &&& c.claims.resources is Some ==> forall|r: Seq<char>| #[trigger]
                t.root_resources.contains(r) ==> within_authority(r, c.claims.resources->0)
            &&& t.principal == (match c.claims.on_behalf_of {
                Some(o) => Some(o.principal_did),
                None => None,
            })
            &&& c.claims.on_behalf_of is Some && c.claims.on_behalf_of->0.resource_authority.len() > 0
                ==> forall|r: Seq<char>| #[trigger]
                t.root_resources.contains(r) ==> within_authority(
                    r,
                    c.claims.on_behalf_of->0.resource_authority,
                )
        },
{
    let child = root_scope(t);
    let parent = granted(c.claims);
    assert forall|x: Seq<char>| t.root_tools.contains(x) == #[trigger] child.tools.contains(x) by {}
    assert forall|x: Seq<char>| c.claims.tools.contains(x) == #[trigger] parent.tools.contains(x) by {}
    let held = t.root_resources.to_set();
    assert forall|r: Seq<char>| t.root_resources.contains(r) == #[trigger] held.contains(r) by {}
    if rooted_in(t, c) {
        assert forall|x: Seq<char>| #[trigger]
            t.root_tools.contains(x) implies c.claims.tools.contains(x) by {
            assert(child.tools.contains(x));
            assert(parent.tools.contains(x));
        }
        if c.claims.resources is Some {
            assert forall|r: Seq<char>| #[trigger]
                t.root_resources.contains(r) implies within_authority(r, c.claims.resources->0) by {
                assert(held.contains(r));
            }
        }
        if c.claims.on_behalf_of is Some && c.claims.on_behalf_of->0.resource_authority.len() > 0 {
            assert forall|r: Seq<char>| #[trigger]
                t.root_resources.contains(r) implies within_authority(
                r,
                c.claims.on_behalf_of->0.resource_authority,
            ) by {
                assert(held.contains(r));
            }
        }
    } else {
        if forall|x: Seq<char>| #[trigger]
            t.root_tools.contains(x) ==> c.claims.tools.contains(x) {
            assert forall|x: Seq<char>| #[trigger] child.tools.contains(x) implies parent.tools.contains(
                x,
            ) by {
                assert(t.root_tools.contains(x));
            }
            assert(child.tools.subset_of(parent.tools));
        }
        if c.claims.resources is Some && (forall|r: Seq<char>| #[trigger]
            t.root_resources.contains(r) ==> within_authority(r, c.claims.resources->0)) {
            assert(all_within(held, c.claims.resources->0)) by {
                assert forall|r: Seq<char>| held.contains(r) implies #[trigger] within_authority(
                    r,
                    c.claims.resources->0,
                ) by {
                    assert(t.root_resources.contains(r));
                }
            }
        }
        if c.claims.on_behalf_of is Some && (forall|r: Seq<char>| #[trigger]
            t.root_resources.contains(r) ==> within_authority(
                r,
                c.claims.on_behalf_of->0.resource_authority,
            )) {
            assert(all_within(held, c.claims.on_behalf_of->0.resource_authority)) by {
                assert forall|r: Seq<char>| held.contains(r) implies #[trigger] within_authority(
                    r,
                    c.claims.on_behalf_of->0.resource_authority,
                ) by {
                    assert(t.root_resources.contains(r));
                }
            }
        }
    }
}

/// A refusal to use a token says what is wrong: by how much the depth is exceeded, how long ago it
/// expired, or which principal was required and which was asserted.
pub proof fn a_refused_use_says_what_is_wrong(t: TokenView, a: ActionView, now: int)
    requires
        t.hops.len() > 0,
    ensures
        use_refused(t, a, now) matches Some(ErrorView::DelegationDepthExceeded { depth, max }) ==> depth
            == hop::depth_of(t.hops) && max == t.root_max_depth && depth > max,
        use_refused(t, a, now) matches Some(ErrorView::ActingForMismatch { required, asserted }) ==> Some(
            required,
        ) == t.principal && asserted == a.acting_for && asserted != Some(required),
        use_refused(t, a, now) matches Some(ErrorView::TokenExpired { secs_ago }) ==> exists|i: int|
            0 <= i < t.hops.len() && now > (#[trigger] t.hops[i]).expires_at && secs_ago == ((now
                - t.hops[i].expires_at) / (time::NANOS_PER_SEC as int)) as i64,
{
    hop::min_expiry_is_earliest(t.hops);
}

/// A widening names what goes beyond: a tool that the wider scope lacks where there is one, and otherwise
/// that it is the budget or the depth.
pub proof fn a_widening_names_what_goes_beyond(child: ScopeView, parent: ScopeView, e: ErrorView)
    requires
        widening(child, parent, e),
    ensures
        e is ScopeWideningAttempt,
        (exists|t: Seq<char>| #[trigger] child.tools.contains(t) && !parent.tools.contains(t))
            ==> child.tools.contains(e->ScopeWideningAttempt_capability) && !parent.tools.contains(
            e->ScopeWideningAttempt_capability,
        ),
        (forall|t: Seq<char>| #[trigger] child.tools.contains(t) ==> parent.tools.contains(t))
            ==> e->ScopeWideningAttempt_capability == "budget or depth"@,
{
    if exists|t: Seq<char>| #[trigger] child.tools.contains(t) && !parent.tools.contains(t) {
        let t = choose|t: Seq<char>| #[trigger] child.tools.contains(t) && !parent.tools.contains(t);
        assert(!child.tools.subset_of(parent.tools));
    }
    if forall|t: Seq<char>| #[trigger] child.tools.contains(t) ==> parent.tools.contains(t) {
        assert(child.tools.subset_of(parent.tools));
    }
}

/// A token that is not rooted in a credential is refused for what does not match: another credential,
/// issuer or subject, a wider scope, or another principal.
pub proof fn an_unrooted_token_is_refused_for_what_does_not_match(
    t: TokenView,
    c: CredentialView,
    e: ErrorView,
)
    requires
        !rooted_in(t, c),
        root_refused(t, c, e),
    ensures
        t.vc_id != c.id || t.issuer != c.issuer || t.subject != c.subject
            ==> e is InvalidBiscuitSignature,
        t.vc_id == c.id && t.issuer == c.issuer && t.subject == c.subject
            ==> e is ScopeWideningAttempt || e is PrincipalMismatch || e is ConsentViolation,
        e matches ErrorView::PrincipalMismatch { expected, got } ==> t.principal is Some
            || c.claims.on_behalf_of is Some,
        e is PrincipalMismatch && t.principal is Some ==> e->PrincipalMismatch_got == t.principal->0,
        e is PrincipalMismatch && c.claims.on_behalf_of is Some ==> e->PrincipalMismatch_expected
            == c.claims.on_behalf_of->0.principal_did,
        e is ConsentViolation ==> t.root_resources.contains(e->ConsentViolation_capability),
{
}

/// The gates in force stand in order: first the token's on the tool, as the token has them, then those of
/// the credential that are not among them, each once.
pub proof fn gates_in_force_stand_in_order(
    gates: Seq<GateView>,
    required: Seq<GateView>,
    tool: Seq<char>,
)
    ensures
        designating(gates, tool) == gates.filter(|g: GateView| g.tool == tool),
        designating(gates, tool).len() <= effective_gates(gates, required, tool).len(),
        effective_gates(gates, required, tool).take(designating(gates, tool).len() as int)
            == designating(gates, tool),
        forall|i: int, j: int|
            0 <= i < j < effective_gates(gates, required, tool).len() && j >= designating(
                gates,
                tool,
            ).len() ==> #[trigger] effective_gates(gates, required, tool)[i]
                != #[trigger] effective_gates(gates, required, tool)[j],
    decreases gates.len() + required.len(),
{
    let own = designating(gates, tool);
    let n = own.len() as int;
    let all = effective_gates(gates, required, tool);
    let pick = |g: GateView| g.tool == tool;
    if required.len() == 0 {
        reveal(Seq::filter);
        assert(all.take(n) =~= own);
        if gates.len() > 0 {
            gates_in_force_stand_in_order(gates.drop_last(), required, tool);
            assert(pick(gates.last()) == (gates.last().tool == tool));
            let kept = gates.drop_last().filter(pick);
            assert(gates.filter(pick) == if pick(gates.last()) {
                kept.push(gates.last())
            } else {
                kept
            });
        } else {
            assert(gates.filter(pick) =~= own);
        }
    } else {
        let rest = required.drop_last();
        gates_in_force_stand_in_order(gates, rest, tool);
        let before = effective_gates(gates, rest, tool);
        assert(all.take(n) =~= before.take(n));
        assert forall|i: int, j: int| 0 <= i < j < all.len() && j >= n implies #[trigger] all[i]
            != #[trigger] all[j] by {
            assert(all[i] == before[i]);
            if j < before.len() {
                assert(all[j] == before[j]);
            } else {
                assert(before.contains(before[i]));
            }
        }
    }
}

/// Gates are checked against what was handed over: the action, the anchor's own DID and key, the
/// directory where there is one, the time, and every item of the evidence and every recognized kind in
/// its place.
pub proof fn gates_are_checked_against_what_was_handed_over(
    action: &Action,
    anchor: &TrustAnchor,
    directory: Option<&ApproverDirectory>,
    now_unix: i64,
    evidence: Seq<ApprovalEvidence>,
    kinds: Seq<&str>,
    i: int,
)
    requires
        0 <= i < evidence.len(),
        i < kinds.len(),
    ensures
        gate_setting(action, anchor, directory, now_unix).action == action@,
        gate_setting(action, anchor, directory, now_unix).anchor_did == anchor.did_text(),
        gate_setting(action, anchor, directory, now_unix).anchor_key == anchor.key(),
        gate_setting(action, anchor, directory, now_unix).now_unix == now_unix,
        directory is Some ==> gate_setting(action, anchor, directory, now_unix).directory == Some(
            directory->0@,
        ),
        directory is None ==> gate_setting(action, anchor, directory, now_unix).directory is None,
        evidence_views(evidence).len() == evidence.len(),
        evidence_views(evidence)[i] == evidence[i]@,
        str_views(kinds).len() == kinds.len(),
        str_views(kinds)[i] == kinds[i]@,
{
}

/// A lifetime beyond the longest is cut to the longest.
pub proof fn a_hop_lives_no_longer_than_the_longest(parent_expiry: int, ttl_secs: u64, now: int)
    requires
        ttl_secs >= crate::vc::MAX_VALID_FOR_SECS,
    ensures
        hop_expiry(parent_expiry, ttl_secs, now) == hop_expiry(
            parent_expiry,
            crate::vc::MAX_VALID_FOR_SECS,
            now,
        ),
        hop_expiry(parent_expiry, ttl_secs, now) <= parent_expiry,
{
}

} // verus!
