//! The capabilities permitted at one delegation hop.

use vstd::prelude::*;
use vstd::string::*;
use crate::approval;
use crate::approval::{Gate, GateView};
use crate::strings::StringSet;
use crate::text;

verus! {

/// A set of permitted capabilities at one delegation hop.
#[derive(Debug)]
pub struct Scope {
    /// Tool identifiers permitted at this level.
    pub tools: StringSet,
    /// Optional spend limit in USD-cents: a ceiling on delegated authority, not a running
    /// balance.
    pub budget_usd: Option<u32>,
    /// Maximum cost of any single action, in USD-cents. `None` = no per-action cap. A
    /// capped token denies any action whose cost is absent.
    pub max_action_cost: Option<u32>,
    /// Maximum remaining delegation depth.
    pub max_depth: u32,
    /// Resource identifiers this level may touch (exact-match allow-list). Empty = no
    /// in-token resource constraint.
    pub resources: StringSet,
    /// Execution-time human-authorization designations.
    pub gates: Vec<Gate>,
}

/// A scope as mathematical values.
#[verifier::ext_equal]
pub struct ScopeView {
    pub tools: Set<Seq<char>>,
    pub budget_usd: Option<u32>,
    pub max_action_cost: Option<u32>,
    pub max_depth: u32,
    pub resources: Set<Seq<char>>,
    pub gates: Seq<GateView>,
}

impl View for Scope {
    type V = ScopeView;

    open spec fn view(&self) -> ScopeView {
        ScopeView {
            tools: self.tools@,
            budget_usd: self.budget_usd,
            max_action_cost: self.max_action_cost,
            max_depth: self.max_depth,
            resources: self.resources@,
            gates: approval::gate_views(self.gates@),
        }
    }
}

impl Clone for Scope {
    fn clone(&self) -> (r: Self)
        ensures
            r@ == self@,
    {
        Scope {
            tools: self.tools.clone(),
            budget_usd: self.budget_usd,
            max_action_cost: self.max_action_cost,
            max_depth: self.max_depth,
            resources: self.resources.clone(),
            gates: approval::gates_clone(&self.gates),
        }
    }
}

/// Whether a limit is no looser than another: no value above the other's, where both are
/// set.
pub open spec fn no_looser(child: Option<u32>, parent: Option<u32>) -> bool {
    match (child, parent) {
        (Some(c), Some(p)) => c <= p,
        _ => true,
    }
}

/// Whether `child` lies within `parent`: no tool, budget or depth beyond the parent's, a
/// per-action cap at most the parent's where it has one, and no cap above the parent's
/// whole budget.
pub open spec fn subset_scope(child: ScopeView, parent: ScopeView) -> bool {
    &&& child.tools.subset_of(parent.tools)
    &&& no_looser(child.budget_usd, parent.budget_usd)
    &&& child.max_depth <= parent.max_depth
    &&& parent.max_action_cost is Some ==> child.max_action_cost is Some
        && child.max_action_cost->0 <= parent.max_action_cost->0
    &&& no_looser(child.max_action_cost, parent.budget_usd)
}

/// The scope of a list of tools with a budget and a depth, and nothing else.
pub open spec fn plain_scope(
    tools: Set<Seq<char>>,
    budget_usd: Option<u32>,
    max_depth: u32,
) -> ScopeView {
    ScopeView {
        tools,
        budget_usd,
        max_action_cost: None,
        max_depth,
        resources: Set::<Seq<char>>::empty(),
        gates: Seq::<GateView>::empty(),
    }
}

impl Scope {
    /// Create a scope from a list of tool identifiers.
    pub fn new(tools: Vec<String>) -> (r: Self)
        ensures
            r@ == plain_scope(text::views(tools@).to_set(), None, 0),
    {
        Self::with_budget_and_depth(tools, None, 0)
    }

    /// Create a fully-specified scope (no resource constraint).
    pub fn with_budget_and_depth(
        tools: Vec<String>,
        budget_usd: Option<u32>,
        max_depth: u32,
    ) -> (r: Self)
        ensures
            r@ == plain_scope(text::views(tools@).to_set(), budget_usd, max_depth),
    {
        let r = Scope {
            tools: StringSet::from_list(&tools),
            budget_usd,
            max_action_cost: None,
            max_depth,
            resources: StringSet::new(),
            gates: Vec::new(),
        };
        assert(r@.gates =~= Seq::<GateView>::empty());
        r
    }

    /// Cap the cost of any single action at `usd_cents` (builder style).
    #[must_use]
    pub fn with_max_action_cost(self, usd_cents: u32) -> (r: Self)
        ensures
            r@ == (ScopeView { max_action_cost: Some(usd_cents), ..self@ }),
    {
        Scope { max_action_cost: Some(usd_cents), ..self }
    }

    /// Set the resource allow-list of this scope (builder style).
    #[must_use]
    pub fn with_resources(self, resources: Vec<String>) -> (r: Self)
        ensures
            r@ == (ScopeView { resources: text::views(resources@).to_set(), ..self@ }),
    {
        Scope { resources: StringSet::from_list(&resources), ..self }
    }

    /// Designate `tool` as requiring execution-time human approval, builder style.
    #[must_use]
    pub fn require_approval(self, tool: &str) -> (r: Self)
        ensures
            r@ == (ScopeView {
                gates: self@.gates.push(GateView { kind: "approval"@, tool: tool@ }),
                ..self@
            }),
    {
        let ghost before = self@;
        let gate = Gate::approval(tool);
        let mut r = self;
        r.gates.push(gate);
        assert(r@.gates =~= before.gates.push(gate@));
        r
    }

    /// Add arbitrary execution-time gates, builder style.
    #[must_use]
    pub fn with_gates(self, gates: Vec<Gate>) -> (r: Self)
        ensures
            r@ == (ScopeView { gates: self@.gates + approval::gate_views(gates@), ..self@ }),
    {
        let ghost before = self@;
        let mut more = gates;
        let ghost added = approval::gate_views(more@);
        let mut r = self;
        r.gates.append(&mut more);
        assert(r@.gates =~= before.gates + added);
        r
    }

    /// Returns true if `self` is a subset of (or equal to) `parent`.
    pub fn is_subset_of(&self, parent: &Scope) -> (r: bool)
        ensures
            r == subset_scope(self@, parent@),
    {
        if !self.tools.is_subset(&parent.tools) {
            return false;
        }
        if let (Some(child_budget), Some(parent_budget)) = (self.budget_usd, parent.budget_usd) {
            if child_budget > parent_budget {
                return false;
            }
        }
        if self.max_depth > parent.max_depth {
            return false;
        }
        match (self.max_action_cost, parent.max_action_cost) {
            (_, None) => {},
            (None, Some(_)) => {
                return false;
            },
            (Some(child), Some(parent_cap)) => {
                if child > parent_cap {
                    return false;
                }
            },
        }
        if let (Some(cap), Some(ceiling)) = (self.max_action_cost, parent.budget_usd) {
            if cap > ceiling {
                return false;
            }
        }
        true
    }

    /// Find a widening capability (for error messages): a tool of `self` that `parent`
    /// lacks, if there is one.
    pub fn first_widening_capability(&self, parent: &Scope) -> (r: Option<String>)
        ensures
            r is None == self@.tools.subset_of(parent@.tools),
            r is Some ==> self@.tools.contains(r->0@) && !parent@.tools.contains(r->0@),
    {
        self.tools.first_outside(&parent.tools)
    }
}

/// A scope whose cap does not exceed its own budget lies within itself.
pub proof fn subset_is_reflexive(s: ScopeView)
    requires
        no_looser(s.max_action_cost, s.budget_usd),
    ensures
        subset_scope(s, s),
{
}

/// A scope within a scope within a third lies within the third. A middle scope without a
/// budget does not hand the third's on: there the outer limits are asked for directly.
pub proof fn subset_is_transitive(a: ScopeView, b: ScopeView, c: ScopeView)
    requires
        subset_scope(a, b),
        subset_scope(b, c),
        b.budget_usd is None ==> no_looser(a.budget_usd, c.budget_usd) && no_looser(
            a.max_action_cost,
            c.budget_usd,
        ),
    ensures
        subset_scope(a, c),
{
}

/// Between scopes without tools, caps and depth, being a subset is the order of the
/// budgets.
pub proof fn subset_budget_is_monotonic(child_budget: u32, parent_budget: u32)
    ensures
        subset_scope(
            plain_scope(Set::<Seq<char>>::empty(), Some(child_budget), 0),
            plain_scope(Set::<Seq<char>>::empty(), Some(parent_budget), 0),
        ) <==> child_budget <= parent_budget,
{
}

/// A tool outside the parent's always makes a scope wider, whatever the rest.
pub proof fn extra_tool_is_widening(child: ScopeView, parent: ScopeView, tool: Seq<char>)
    requires
        child.tools.contains(tool),
        !parent.tools.contains(tool),
    ensures
        !subset_scope(child, parent),
{
}

/// A scope is within another exactly where it has no tool beyond it, no higher budget, no greater
/// depth, where the other has a cap one that is no looser, and no cap above the other's budget.
pub proof fn a_narrower_scope_is_narrower_in_every_part(child: ScopeView, parent: ScopeView)
    ensures
        subset_scope(child, parent) <==> {
            &&& forall|t: Seq<char>| #[trigger] child.tools.contains(t) ==> parent.tools.contains(t)
            &&& child.budget_usd is Some && parent.budget_usd is Some ==> child.budget_usd->0
                <= parent.budget_usd->0
            &&& child.max_depth <= parent.max_depth
            &&& parent.max_action_cost is Some ==> child.max_action_cost is Some
                && child.max_action_cost->0 <= parent.max_action_cost->0
            &&& child.max_action_cost is Some && parent.budget_usd is Some
                ==> child.max_action_cost->0 <= parent.budget_usd->0
        },
{
    if forall|t: Seq<char>| #[trigger] child.tools.contains(t) ==> parent.tools.contains(t) {
        assert(child.tools.subset_of(parent.tools));
    }
}

} // verus!
