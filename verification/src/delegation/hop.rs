//! The hops of a delegation chain, and the audit view of one.

use vstd::prelude::*;
use crate::approval::GateView;
use crate::text;
use crate::time::Timestamp;

verus! {

/// One delegation hop: the identity proof binding the agent at that level to the block it
/// signed, and an advisory view of the scope it asserted.
///
/// The identity fields are verified on every verification of a token. The rest is advisory:
/// enforcement lies in the token's Datalog.
#[derive(Debug)]
pub struct Hop {
    /// DID of the agent at this hop.
    pub agent_did: String,
    /// The agent's Ed25519 delegation public key that signed this hop's block.
    pub delegation_public: Vec<u8>,
    /// Primary-key attestation binding `delegation_public` to `agent_did`.
    pub attestation: Vec<u8>,
    /// Tools asserted at this hop (sorted).
    pub tools: Vec<String>,
    /// Resources asserted at this hop (sorted).
    pub resources: Vec<String>,
    /// Budget asserted at this hop.
    pub budget_usd: Option<u32>,
    /// Per-action cost cap asserted at this hop.
    pub max_action_cost: Option<u32>,
    /// When this hop was issued.
    pub issued_at: Timestamp,
    /// When this hop expires.
    pub expires_at: Timestamp,
    /// Depth of this hop (0 = root).
    pub depth: u32,
}

/// A hop as mathematical values.
#[verifier::ext_equal]
pub struct HopView {
    pub agent_did: Seq<char>,
    pub delegation_public: Seq<u8>,
    pub attestation: Seq<u8>,
    pub tools: Seq<Seq<char>>,
    pub resources: Seq<Seq<char>>,
    pub budget_usd: Option<u32>,
    pub max_action_cost: Option<u32>,
    pub issued_at: int,
    pub expires_at: int,
    pub depth: u32,
}

impl View for Hop {
    type V = HopView;

    open spec fn view(&self) -> HopView {
        HopView {
            agent_did: self.agent_did@,
            delegation_public: self.delegation_public@,
            attestation: self.attestation@,
            tools: text::views(self.tools@),
            resources: text::views(self.resources@),
            budget_usd: self.budget_usd,
            max_action_cost: self.max_action_cost,
            issued_at: self.issued_at@,
            expires_at: self.expires_at@,
            depth: self.depth,
        }
    }
}

impl Clone for Hop {
    fn clone(&self) -> (r: Self)
        ensures
            r@ == self@,
    {
        let delegation_public = self.delegation_public.clone();
        let attestation = self.attestation.clone();
        assert(delegation_public@ =~= self.delegation_public@);
        assert(attestation@ =~= self.attestation@);
        Hop {
            agent_did: self.agent_did.clone(),
            delegation_public,
            attestation,
            tools: text::strings_clone(&self.tools),
            resources: text::strings_clone(&self.resources),
            budget_usd: self.budget_usd,
            max_action_cost: self.max_action_cost,
            issued_at: self.issued_at,
            expires_at: self.expires_at,
            depth: self.depth,
        }
    }
}

/// The views of a sequence of hops.
pub open spec fn hop_views(v: Seq<Hop>) -> Seq<HopView> {
    v.map_values(|h: Hop| h@)
}

/// A copy of a list of hops.
pub fn hops_clone(v: &Vec<Hop>) -> (r: Vec<Hop>)
    ensures
        hop_views(r@) == hop_views(v@),
{
    let mut out: Vec<Hop> = Vec::new();
    for i in 0..v.len()
        invariant
            out@.len() == i,
            forall|j: int| 0 <= j < i ==> (#[trigger] out@[j])@ == v@[j]@,
    {
        out.push(v[i].clone());
    }
    assert(hop_views(out@) =~= hop_views(v@));
    out
}

/// The earliest expiry of a chain of hops.
pub open spec fn min_expiry(hops: Seq<HopView>) -> int
    decreases hops.len(),
{
    if hops.len() <= 1 {
        hops[0].expires_at
    } else {
        let rest = min_expiry(hops.drop_last());
        if rest <= hops.last().expires_at {
            rest
        } else {
            hops.last().expires_at
        }
    }
}

/// The earliest expiry of a chain of hops.
pub fn earliest_expiry(hops: &Vec<Hop>) -> (r: Timestamp)
    requires
        hops@.len() > 0,
    ensures
        r@ == min_expiry(hop_views(hops@)),
{
    let ghost all = hop_views(hops@);
    let mut m = hops[0].expires_at;
    assert(all.take(1)[0] == hops@[0]@);
    for i in 1..hops.len()
        invariant
            all == hop_views(hops@),
            m@ == min_expiry(all.take(i as int)),
    {
        m = m.earlier(hops[i].expires_at);
        assert(all.take(i + 1).drop_last() =~= all.take(i as int));
        assert(all.take(i + 1).last() == hops@[i as int]@);
    }
    assert(all.take(all.len() as int) =~= all);
    m
}

/// No hop of a chain expires before the chain's earliest expiry, and one hop expires at it.
pub proof fn min_expiry_is_earliest(hops: Seq<HopView>)
    requires
        hops.len() > 0,
    ensures
        forall|i: int| 0 <= i < hops.len() ==> min_expiry(hops) <= (#[trigger] hops[i]).expires_at,
        exists|i: int| 0 <= i < hops.len() && min_expiry(hops) == (#[trigger] hops[i]).expires_at,
    decreases hops.len(),
{
    if hops.len() == 1 {
        assert(min_expiry(hops) == hops[0].expires_at);
    } else {
        let rest = hops.drop_last();
        min_expiry_is_earliest(rest);
        assert forall|i: int| 0 <= i < hops.len() implies min_expiry(hops) <= (
        #[trigger] hops[i]).expires_at by {
            if i < rest.len() {
                assert(rest[i] == hops[i]);
            }
        }
        let w = choose|i: int|
            0 <= i < rest.len() && min_expiry(rest) == (#[trigger] rest[i]).expires_at;
        assert(rest[w] == hops[w]);
        assert(hops[hops.len() - 1] == hops.last());
    }
}

/// The tighter of two limits, of which either may be absent.
pub open spec fn tighter(a: Option<u32>, b: Option<u32>) -> Option<u32> {
    match (a, b) {
        (Some(x), Some(y)) => if x <= y {
            Some(x)
        } else {
            Some(y)
        },
        (Some(x), None) => Some(x),
        (None, _) => b,
    }
}

/// The tighter of two limits, of which either may be absent.
pub fn tighter_of(a: Option<u32>, b: Option<u32>) -> (r: Option<u32>)
    ensures
        r == tighter(a, b),
{
    match (a, b) {
        (Some(x), Some(y)) => if x <= y {
            Some(x)
        } else {
            Some(y)
        },
        (Some(x), None) => Some(x),
        (None, _) => b,
    }
}

/// The tightest budget that a hop of a chain asserts.
pub open spec fn least_budget(hops: Seq<HopView>) -> Option<u32>
    decreases hops.len(),
{
    if hops.len() == 0 {
        None
    } else {
        tighter(least_budget(hops.drop_last()), hops.last().budget_usd)
    }
}

/// The tightest budget that a hop of a chain asserts.
pub fn tightest_budget(hops: &Vec<Hop>) -> (r: Option<u32>)
    ensures
        r == least_budget(hop_views(hops@)),
{
    let ghost all = hop_views(hops@);
    let mut least: Option<u32> = None;
    for i in 0..hops.len()
        invariant
            all == hop_views(hops@),
            least == least_budget(all.take(i as int)),
    {
        least = tighter_of(least, hops[i].budget_usd);
        assert(all.take(i + 1).drop_last() =~= all.take(i as int));
        assert(all.take(i + 1).last() == hops@[i as int]@);
    }
    assert(all.take(all.len() as int) =~= all);
    least
}

/// No hop of a chain asserts a budget below the chain's tightest, and where there is one a hop
/// asserts it.
pub proof fn least_budget_is_tightest(hops: Seq<HopView>)
    ensures
        forall|i: int|
            0 <= i < hops.len() && (#[trigger] hops[i]).budget_usd is Some ==> least_budget(
                hops,
            ) is Some && least_budget(hops)->0 <= hops[i].budget_usd->0,
        least_budget(hops) is Some ==> exists|i: int|
            0 <= i < hops.len() && (#[trigger] hops[i]).budget_usd == least_budget(hops),
    decreases hops.len(),
{
    if hops.len() > 0 {
        let rest = hops.drop_last();
        least_budget_is_tightest(rest);
        assert forall|i: int|
            0 <= i < hops.len() && (#[trigger] hops[i]).budget_usd is Some implies least_budget(
            hops,
        ) is Some && least_budget(hops)->0 <= hops[i].budget_usd->0 by {
            if i < rest.len() {
                assert(rest[i] == hops[i]);
            }
        }
        if least_budget(hops) is Some {
            if least_budget(hops) == hops.last().budget_usd {
                assert(hops[hops.len() - 1].budget_usd == least_budget(hops));
            } else {
                let i = choose|i: int|
                    0 <= i < rest.len() && (#[trigger] rest[i]).budget_usd == least_budget(rest);
                assert(hops[i] == rest[i]);
            }
        }
    }
}

/// What a token carries and what was read from it.
#[verifier::ext_equal]
pub struct TokenView {
    /// The serialized Biscuit.
    pub biscuit: Seq<u8>,
    /// The hops.
    pub hops: Seq<HopView>,
    /// The identifier of the credential it was minted from.
    pub vc_id: Seq<char>,
    /// The issuer of that credential.
    pub issuer: Seq<char>,
    /// The subject of that credential.
    pub subject: Seq<char>,
    /// The tools of the authority block.
    pub root_tools: Seq<Seq<char>>,
    /// The budget of the authority block.
    pub root_budget: Option<u32>,
    /// The tightest per-action cap of the chain.
    pub max_action_cost: Option<u32>,
    /// The depth bound of the authority block.
    pub root_max_depth: u32,
    /// The principal that the token is bound to.
    pub principal: Option<Seq<char>>,
    /// The resources of the authority block.
    pub root_resources: Seq<Seq<char>>,
    /// The gates of the chain.
    pub gates: Seq<GateView>,
}

/// How often a token of some hops has been delegated.
pub open spec fn depth_of(hops: Seq<HopView>) -> u32 {
    (hops.len() - 1) as u32
}

// -- Audit view ------------------------------------------------------------------------------

/// A human-readable, audit-friendly view of a delegation chain, without signatures or key
/// material.
#[derive(Debug)]
pub struct DelegationChain {
    /// The root credential this chain was derived from.
    pub vc_id: String,
    /// The trust anchor that issued the root credential.
    pub issuer_did: String,
    /// The human principal the chain is bound to (on-behalf-of), if any.
    pub principal_did: Option<String>,
    /// One entry per delegation hop.
    pub entries: Vec<ChainEntry>,
}

/// One hop in a delegation chain audit view.
#[derive(Debug)]
pub struct ChainEntry {
    /// Hop index (0 = root).
    pub depth: u32,
    /// DID of the agent at this hop.
    pub agent_did: String,
    /// Tools permitted at this hop.
    pub tools: Vec<String>,
    /// Resources permitted at this hop (empty = no resource constraint).
    pub resources: Vec<String>,
    /// Spend limit in USD-cents at this hop.
    pub budget_usd: Option<u32>,
    /// Enforced per-action cost cap in USD-cents at this hop (None = uncapped).
    pub max_action_cost: Option<u32>,
    /// When this hop was issued.
    pub issued_at: Timestamp,
    /// When this hop expires.
    pub expires_at: Timestamp,
}

/// A chain entry as mathematical values.
#[verifier::ext_equal]
pub struct ChainEntryView {
    pub depth: u32,
    pub agent_did: Seq<char>,
    pub tools: Seq<Seq<char>>,
    pub resources: Seq<Seq<char>>,
    pub budget_usd: Option<u32>,
    pub max_action_cost: Option<u32>,
    pub issued_at: int,
    pub expires_at: int,
}

impl View for ChainEntry {
    type V = ChainEntryView;

    open spec fn view(&self) -> ChainEntryView {
        ChainEntryView {
            depth: self.depth,
            agent_did: self.agent_did@,
            tools: text::views(self.tools@),
            resources: text::views(self.resources@),
            budget_usd: self.budget_usd,
            max_action_cost: self.max_action_cost,
            issued_at: self.issued_at@,
            expires_at: self.expires_at@,
        }
    }
}

impl Clone for ChainEntry {
    fn clone(&self) -> (r: Self)
        ensures
            r@ == self@,
    {
        ChainEntry {
            depth: self.depth,
            agent_did: self.agent_did.clone(),
            tools: text::strings_clone(&self.tools),
            resources: text::strings_clone(&self.resources),
            budget_usd: self.budget_usd,
            max_action_cost: self.max_action_cost,
            issued_at: self.issued_at,
            expires_at: self.expires_at,
        }
    }
}

/// A chain as mathematical values.
#[verifier::ext_equal]
pub struct ChainView {
    pub vc_id: Seq<char>,
    pub issuer_did: Seq<char>,
    pub principal_did: Option<Seq<char>>,
    pub entries: Seq<ChainEntryView>,
}

/// The views of a sequence of chain entries.
pub open spec fn chain_entry_views(v: Seq<ChainEntry>) -> Seq<ChainEntryView> {
    v.map_values(|e: ChainEntry| e@)
}

impl View for DelegationChain {
    type V = ChainView;

    open spec fn view(&self) -> ChainView {
        ChainView {
            vc_id: self.vc_id@,
            issuer_did: self.issuer_did@,
            principal_did: text::opt_view(self.principal_did),
            entries: chain_entry_views(self.entries@),
        }
    }
}

impl Clone for DelegationChain {
    fn clone(&self) -> (r: Self)
        ensures
            r@ == self@,
    {
        let mut entries: Vec<ChainEntry> = Vec::new();
        for i in 0..self.entries.len()
            invariant
                entries@.len() == i,
                forall|j: int| 0 <= j < i ==> (#[trigger] entries@[j])@ == self.entries@[j]@,
        {
            entries.push(self.entries[i].clone());
        }
        assert(chain_entry_views(entries@) =~= chain_entry_views(self.entries@));
        DelegationChain {
            vc_id: self.vc_id.clone(),
            issuer_did: self.issuer_did.clone(),
            principal_did: text::opt_clone(&self.principal_did),
            entries,
        }
    }
}

/// The audit entry of a hop: all of it but the key and the attestation.
pub open spec fn audit_entry(h: HopView) -> ChainEntryView {
    ChainEntryView {
        depth: h.depth,
        agent_did: h.agent_did,
        tools: h.tools,
        resources: h.resources,
        budget_usd: h.budget_usd,
        max_action_cost: h.max_action_cost,
        issued_at: h.issued_at,
        expires_at: h.expires_at,
    }
}

/// The audit view of a token.
pub open spec fn audit_chain(t: TokenView) -> ChainView {
    ChainView {
        vc_id: t.vc_id,
        issuer_did: t.issuer,
        principal_did: t.principal,
        entries: t.hops.map_values(|h: HopView| audit_entry(h)),
    }
}

/// The audit entries of hops.
pub fn audit_entries(hops: &Vec<Hop>) -> (r: Vec<ChainEntry>)
    ensures
        chain_entry_views(r@) == hop_views(hops@).map_values(|h: HopView| audit_entry(h)),
{
    let mut out: Vec<ChainEntry> = Vec::new();
    for i in 0..hops.len()
        invariant
            out@.len() == i,
            forall|j: int| 0 <= j < i ==> (#[trigger] out@[j])@ == audit_entry(hops@[j]@),
    {
        let h = &hops[i];
        out.push(
            ChainEntry {
                depth: h.depth,
                agent_did: h.agent_did.clone(),
                tools: text::strings_clone(&h.tools),
                resources: text::strings_clone(&h.resources),
                budget_usd: h.budget_usd,
                max_action_cost: h.max_action_cost,
                issued_at: h.issued_at,
                expires_at: h.expires_at,
            },
        );
    }
    assert(chain_entry_views(out@) =~= hop_views(hops@).map_values(|h: HopView| audit_entry(h)));
    out
}

/// The tighter of two bounds is the smaller one; a bound that is not there does not bind.
pub proof fn the_tighter_bound_is_the_smaller(a: Option<u32>, b: Option<u32>)
    ensures
        a is None ==> tighter(a, b) == b,
        b is None ==> tighter(a, b) == a,
        a is Some && b is Some ==> tighter(a, b) is Some && tighter(a, b)->0 <= a->0 && tighter(
            a,
            b,
        )->0 <= b->0 && (tighter(a, b) == a || tighter(a, b) == b),
        tighter(a, b) == tighter(b, a),
{
}

/// A chain of `n` hops has been delegated `n - 1` times.
pub proof fn each_hop_but_the_first_is_a_delegation(hops: Seq<HopView>)
    requires
        0 < hops.len() <= u32::MAX,
    ensures
        depth_of(hops) == hops.len() - 1,
{
}

} // verus!
