//! What holds of delegation as a whole: a token reports what it was minted with, narrowing
//! only takes away, and a use that is permitted lies within every hop.

use vstd::prelude::*;
use crate::approval::GateView;
use crate::crypto;
use crate::delegation::action::ActionView;
use crate::delegation::datalog;
use crate::delegation::datalog::{BlockView, CheckView, FactView, TermView};
use crate::delegation::hop;
use crate::delegation::hop::TokenView;
use crate::delegation::plan;
use crate::delegation::reading;
use crate::delegation::rules;
use crate::delegation::scope;
use crate::delegation::scope::ScopeView;
use crate::delegation::token;
use crate::did;
use crate::did::KeyView;
use crate::error::ErrorView;
use crate::strings;
use crate::text;
use crate::time;
use crate::vc::CredentialView;

verus! {

// -- Facts of blocks ------------------------------------------------------------------------------

proof fn lemma_concat_contains<A>(a: Seq<A>, b: Seq<A>, x: A)
    ensures
        (a + b).contains(x) <==> a.contains(x) || b.contains(x),
{
    let c = a + b;
    if a.contains(x) {
        let i = choose|i: int| 0 <= i < a.len() && a[i] == x;
        assert(c[i] == x);
    }
    if b.contains(x) {
        let i = choose|i: int| 0 <= i < b.len() && b[i] == x;
        assert(c[a.len() + i] == x);
    }
    if c.contains(x) {
        let i = choose|i: int| 0 <= i < c.len() && c[i] == x;
        if i < a.len() {
            assert(a[i] == x);
        } else {
            assert(b[i - a.len()] == x);
        }
    }
}

proof fn lemma_str_fact_injective(n: Seq<char>, s: Seq<char>, m: Seq<char>, t: Seq<char>)
    ensures
        datalog::str_fact(n, s) == datalog::str_fact(m, t) ==> n == m && s == t,
{
    let a = datalog::str_fact(n, s);
    let b = datalog::str_fact(m, t);
    if a == b {
        assert(a.terms[0] == b.terms[0]);
    }
}

proof fn lemma_int_fact_injective(n: Seq<char>, s: int, m: Seq<char>, t: int)
    ensures
        datalog::int_fact(n, s) == datalog::int_fact(m, t) ==> n == m && s == t,
{
    let a = datalog::int_fact(n, s);
    let b = datalog::int_fact(m, t);
    if a == b {
        assert(a.terms[0] == b.terms[0]);
    }
}

proof fn lemma_str_facts_contains(name: Seq<char>, v: Seq<Seq<char>>, f: FactView)
    ensures
        plan::str_facts(name, v).contains(f) <==> exists|s: Seq<char>|
            v.contains(s) && f == #[trigger] datalog::str_fact(name, s),
{
    let all = plan::str_facts(name, v);
    if all.contains(f) {
        let i = choose|i: int| 0 <= i < all.len() && all[i] == f;
        assert(v.contains(v[i]) && f == datalog::str_fact(name, v[i]));
    }
    if exists|s: Seq<char>| v.contains(s) && f == #[trigger] datalog::str_fact(name, s) {
        let s = choose|s: Seq<char>| v.contains(s) && f == #[trigger] datalog::str_fact(name, s);
        let i = choose|i: int| 0 <= i < v.len() && v[i] == s;
        assert(all[i] == f);
    }
}

proof fn lemma_gate_facts_contains(g: Seq<GateView>, f: FactView)
    ensures
        plan::gate_facts(g).contains(f) <==> exists|x: GateView| #[trigger]
            g.contains(x) && f == datalog::pair_fact("gate"@, x.kind, x.tool),
{
    let all = plan::gate_facts(g);
    if all.contains(f) {
        let i = choose|i: int| 0 <= i < all.len() && all[i] == f;
        assert(g.contains(g[i]));
    }
    if exists|x: GateView| #[trigger]
        g.contains(x) && f == datalog::pair_fact("gate"@, x.kind, x.tool) {
        let x = choose|x: GateView| #[trigger]
            g.contains(x) && f == datalog::pair_fact("gate"@, x.kind, x.tool);
        let i = choose|i: int| 0 <= i < g.len() && g[i] == x;
        assert(all[i] == f);
    }
}

proof fn lemma_one_contains<A>(x: A, y: A)
    ensures
        seq![x].contains(y) <==> x == y,
{
    if x == y {
        assert(seq![x][0] == y);
    }
}

proof fn lemma_opt_int_contains(name: Seq<char>, n: Option<u32>, f: FactView)
    ensures
        plan::opt_int_fact(name, n).contains(f) <==> n is Some && f == datalog::int_fact(
            name,
            n->0 as int,
        ),
{
    if n is Some {
        lemma_one_contains(datalog::int_fact(name, n->0 as int), f);
    }
}

/// A fact of an authority block is one of those that its credential and scope give.
proof fn lemma_mint_facts(c: CredentialView, s: ScopeView, f: FactView)
    ensures
        plan::mint_facts(c, s).contains(f) <==> {
            ||| f == datalog::str_fact("vc_id"@, c.id)
            ||| f == datalog::str_fact("issuer"@, c.issuer)
            ||| f == datalog::str_fact("subject"@, c.subject)
            ||| f == datalog::int_fact("max_depth"@, s.max_depth as int)
            ||| plan::opt_int_fact("budget"@, s.budget_usd).contains(f)
            ||| plan::opt_int_fact("max_action_cost"@, s.max_action_cost).contains(f)
            ||| plan::str_facts("root_tool"@, strings::listing(s.tools)).contains(f)
            ||| plan::principal_fact(c).contains(f)
            ||| plan::str_facts("root_resource"@, strings::listing(s.resources)).contains(f)
            ||| plan::gate_facts(s.gates).contains(f)
            ||| plan::gate_facts(c.claims.required_gates).contains(f)
        },
{
    let p0 = seq![
        datalog::str_fact("vc_id"@, c.id),
        datalog::str_fact("issuer"@, c.issuer),
        datalog::str_fact("subject"@, c.subject),
        datalog::int_fact("max_depth"@, s.max_depth as int),
    ];
    let p1 = p0 + plan::opt_int_fact("budget"@, s.budget_usd);
    let p2 = p1 + plan::opt_int_fact("max_action_cost"@, s.max_action_cost);
    let p3 = p2 + plan::str_facts("root_tool"@, strings::listing(s.tools));
    let p4 = p3 + plan::principal_fact(c);
    let p5 = p4 + plan::str_facts("root_resource"@, strings::listing(s.resources));
    let p6 = p5 + plan::gate_facts(s.gates);
    lemma_concat_contains(p0, plan::opt_int_fact("budget"@, s.budget_usd), f);
    lemma_concat_contains(p1, plan::opt_int_fact("max_action_cost"@, s.max_action_cost), f);
    lemma_concat_contains(p2, plan::str_facts("root_tool"@, strings::listing(s.tools)), f);
    lemma_concat_contains(p3, plan::principal_fact(c), f);
    lemma_concat_contains(p4, plan::str_facts("root_resource"@, strings::listing(s.resources)), f);
    lemma_concat_contains(p5, plan::gate_facts(s.gates), f);
    lemma_concat_contains(p6, plan::gate_facts(c.claims.required_gates), f);
    assert(p0[0] == datalog::str_fact("vc_id"@, c.id));
    assert(p0[1] == datalog::str_fact("issuer"@, c.issuer));
    assert(p0[2] == datalog::str_fact("subject"@, c.subject));
    assert(p0[3] == datalog::int_fact("max_depth"@, s.max_depth as int));
}

/// A fact of a hop's block is one of those that its agent and scope give.
proof fn lemma_hop_facts(agent_did: Seq<char>, s: ScopeView, f: FactView)
    ensures
        plan::hop_facts(agent_did, s).contains(f) <==> {
            ||| f == datalog::str_fact("hop"@, agent_did)
            ||| plan::opt_int_fact("max_action_cost"@, s.max_action_cost).contains(f)
            ||| plan::gate_facts(s.gates).contains(f)
        },
{
    let p0 = seq![datalog::str_fact("hop"@, agent_did)];
    let p1 = p0 + plan::opt_int_fact("max_action_cost"@, s.max_action_cost);
    lemma_concat_contains(p0, plan::opt_int_fact("max_action_cost"@, s.max_action_cost), f);
    lemma_concat_contains(p1, plan::gate_facts(s.gates), f);
    lemma_one_contains(datalog::str_fact("hop"@, agent_did), f);
}

/// The string facts of a name in an authority block.
proof fn lemma_mint_strings(c: CredentialView, s: ScopeView)
    requires
        strings::listing(s.tools).to_set() == s.tools,
        strings::listing(s.resources).to_set() == s.resources,
    ensures
        datalog::strings_in(plan::mint_facts(c, s), "vc_id"@) == set![c.id],
        datalog::strings_in(plan::mint_facts(c, s), "issuer"@) == set![c.issuer],
        datalog::strings_in(plan::mint_facts(c, s), "subject"@) == set![c.subject],
        datalog::strings_in(plan::mint_facts(c, s), "root_tool"@) == s.tools,
        datalog::strings_in(plan::mint_facts(c, s), "root_resource"@) == s.resources,
        datalog::strings_in(plan::mint_facts(c, s), "principal"@) == (
        match c.claims.on_behalf_of {
            Some(o) => set![o.principal_did],
            None => Set::<Seq<char>>::empty(),
        }),
{
    plan::lemma_names();
    let facts = plan::mint_facts(c, s);
    let tools = strings::listing(s.tools);
    let resources = strings::listing(s.resources);
    assert forall|name: Seq<char>, x: Seq<char>| #[trigger]
        facts.contains(datalog::str_fact(name, x)) <==> {
            ||| name == "vc_id"@ && x == c.id
            ||| name == "issuer"@ && x == c.issuer
            ||| name == "subject"@ && x == c.subject
            ||| name == "root_tool"@ && s.tools.contains(x)
            ||| name == "root_resource"@ && s.resources.contains(x)
            ||| name == "principal"@ && c.claims.on_behalf_of is Some && x
                == c.claims.on_behalf_of->0.principal_did
        } by {
        let f = datalog::str_fact(name, x);
        lemma_mint_facts(c, s, f);
        lemma_str_fact_injective(name, x, "vc_id"@, c.id);
        lemma_str_fact_injective(name, x, "issuer"@, c.issuer);
        lemma_str_fact_injective(name, x, "subject"@, c.subject);
        lemma_opt_int_contains("budget"@, s.budget_usd, f);
        lemma_opt_int_contains("max_action_cost"@, s.max_action_cost, f);
        lemma_str_facts_contains("root_tool"@, tools, f);
        lemma_str_facts_contains("root_resource"@, resources, f);
        lemma_gate_facts_contains(s.gates, f);
        lemma_gate_facts_contains(c.claims.required_gates, f);
        assert(f.terms[0] == TermView::Str(x));
        assert(f.terms.len() == 1);
        assert forall|m: Seq<char>, n: int| f != #[trigger] datalog::int_fact(m, n) by {
            assert(datalog::int_fact(m, n).terms[0] == TermView::Int(n));
        }
        assert forall|y: Seq<char>| f == #[trigger] datalog::str_fact("root_tool"@, y) implies name
            == "root_tool"@ && y == x by {
            lemma_str_fact_injective(name, x, "root_tool"@, y);
        }
        assert forall|y: Seq<char>| f == #[trigger] datalog::str_fact(
            "root_resource"@,
            y,
        ) implies name == "root_resource"@ && y == x by {
            lemma_str_fact_injective(name, x, "root_resource"@, y);
        }
        assert forall|a: Seq<char>, b: Seq<char>| f != #[trigger] datalog::pair_fact(
            "gate"@,
            a,
            b,
        ) by {
            assert(datalog::pair_fact("gate"@, a, b).terms.len() == 2);
        }
        if c.claims.on_behalf_of is Some {
            let p = c.claims.on_behalf_of->0.principal_did;
            lemma_one_contains(datalog::str_fact("principal"@, p), f);
            lemma_str_fact_injective(name, x, "principal"@, p);
        }
        if s.tools.contains(x) {
            assert(tools.to_set().contains(x));
            assert(tools.contains(x));
        }
        if tools.contains(x) {
            assert(tools.to_set().contains(x));
        }
        if s.resources.contains(x) {
            assert(resources.to_set().contains(x));
            assert(resources.contains(x));
        }
        if resources.contains(x) {
            assert(resources.to_set().contains(x));
        }
    }
    assert(datalog::strings_in(facts, "vc_id"@) =~= set![c.id]);
    assert(datalog::strings_in(facts, "issuer"@) =~= set![c.issuer]);
    assert(datalog::strings_in(facts, "subject"@) =~= set![c.subject]);
    assert(datalog::strings_in(facts, "root_tool"@) =~= s.tools);
    assert(datalog::strings_in(facts, "root_resource"@) =~= s.resources);
    match c.claims.on_behalf_of {
        Some(o) => {
            assert(datalog::strings_in(facts, "principal"@) =~= set![o.principal_did]);
        },
        None => {
            assert(datalog::strings_in(facts, "principal"@) =~= Set::<Seq<char>>::empty());
        },
    }
}

/// The numbers of a name in an authority block.
proof fn lemma_mint_ints(c: CredentialView, s: ScopeView)
    ensures
        datalog::ints_in(plan::mint_facts(c, s), "max_depth"@) == set![s.max_depth as int],
        datalog::ints_in(plan::mint_facts(c, s), "budget"@) == opt_set(s.budget_usd),
        datalog::ints_in(plan::mint_facts(c, s), "max_action_cost"@) == opt_set(
            s.max_action_cost,
        ),
{
    plan::lemma_names();
    let facts = plan::mint_facts(c, s);
    assert forall|name: Seq<char>, x: int| #[trigger]
        facts.contains(datalog::int_fact(name, x)) <==> {
            ||| name == "max_depth"@ && x == s.max_depth
            ||| name == "budget"@ && s.budget_usd is Some && x == s.budget_usd->0
            ||| name == "max_action_cost"@ && s.max_action_cost is Some && x
                == s.max_action_cost->0
        } by {
        let f = datalog::int_fact(name, x);
        lemma_mint_facts(c, s, f);
        lemma_opt_int_contains("budget"@, s.budget_usd, f);
        lemma_opt_int_contains("max_action_cost"@, s.max_action_cost, f);
        lemma_str_facts_contains("root_tool"@, strings::listing(s.tools), f);
        lemma_str_facts_contains("root_resource"@, strings::listing(s.resources), f);
        lemma_gate_facts_contains(s.gates, f);
        lemma_gate_facts_contains(c.claims.required_gates, f);
        lemma_int_fact_injective(name, x, "max_depth"@, s.max_depth as int);
        if s.budget_usd is Some {
            lemma_int_fact_injective(name, x, "budget"@, s.budget_usd->0 as int);
        }
        if s.max_action_cost is Some {
            lemma_int_fact_injective(name, x, "max_action_cost"@, s.max_action_cost->0 as int);
        }
        lemma_int_is_not_string(name, x);
        if c.claims.on_behalf_of is Some {
            lemma_one_contains(
                datalog::str_fact("principal"@, c.claims.on_behalf_of->0.principal_did),
                f,
            );
        }
    }
    assert(datalog::ints_in(facts, "max_depth"@) =~= set![s.max_depth as int]);
    assert(datalog::ints_in(facts, "budget"@) =~= opt_set(s.budget_usd));
    assert(datalog::ints_in(facts, "max_action_cost"@) =~= opt_set(s.max_action_cost));
}

proof fn lemma_int_is_not_string(name: Seq<char>, x: int)
    ensures
        forall|m: Seq<char>, y: Seq<char>|
            datalog::int_fact(name, x) != #[trigger] datalog::str_fact(m, y),
        forall|m: Seq<char>, a: Seq<char>, b: Seq<char>|
            datalog::int_fact(name, x) != #[trigger] datalog::pair_fact(m, a, b),
{
    let f = datalog::int_fact(name, x);
    assert(f.terms[0] == TermView::Int(x));
    assert forall|m: Seq<char>, y: Seq<char>| f != #[trigger] datalog::str_fact(m, y) by {
        assert(datalog::str_fact(m, y).terms[0] == TermView::Str(y));
    }
    assert forall|m: Seq<char>, a: Seq<char>, b: Seq<char>| f != #[trigger] datalog::pair_fact(
        m,
        a,
        b,
    ) by {
        assert(datalog::pair_fact(m, a, b).terms.len() == 2);
    }
}

/// The set of an optional number.
pub open spec fn opt_set(n: Option<u32>) -> Set<int> {
    match n {
        Some(x) => set![x as int],
        None => Set::<int>::empty(),
    }
}

/// The gates of an authority block are those of the scope and those of the credential.
proof fn lemma_mint_gates(c: CredentialView, s: ScopeView, g: GateView)
    ensures
        datalog::pairs_in(plan::mint_facts(c, s), "gate"@).contains((g.kind, g.tool))
            <==> s.gates.contains(g) || c.claims.required_gates.contains(g),
{
    let f = datalog::pair_fact("gate"@, g.kind, g.tool);
    lemma_mint_facts(c, s, f);
    lemma_opt_int_contains("budget"@, s.budget_usd, f);
    lemma_opt_int_contains("max_action_cost"@, s.max_action_cost, f);
    lemma_str_facts_contains("root_tool"@, strings::listing(s.tools), f);
    lemma_str_facts_contains("root_resource"@, strings::listing(s.resources), f);
    lemma_gate_facts_contains(s.gates, f);
    lemma_gate_facts_contains(c.claims.required_gates, f);
    assert(f.terms.len() == 2);
    assert(f.terms[0] == TermView::Str(g.kind));
    assert(f.terms[1] == TermView::Str(g.tool));
    if c.claims.on_behalf_of is Some {
        lemma_one_contains(
            datalog::str_fact("principal"@, c.claims.on_behalf_of->0.principal_did),
            f,
        );
    }
    assert forall|x: GateView| f == #[trigger] datalog::pair_fact(
        "gate"@,
        x.kind,
        x.tool,
    ) implies x == g by {
        let h = datalog::pair_fact("gate"@, x.kind, x.tool);
        assert(h.terms[0] == f.terms[0] && h.terms[1] == f.terms[1]);
    }
}

// -- Minted tokens -----------------------------------------------------------------------------

/// What a token reports of its root, where its authority block is one that minting writes.
proof fn lemma_root_reported(t: TokenView, c: CredentialView, s: ScopeView, expires_at: int)
    requires
        reading::readable(t),
        reading::contents(t)[0] == plan::mint_block(c, s, expires_at),
        strings::listing(s.tools).to_set() == s.tools,
        strings::listing(s.resources).to_set() == s.resources,
    ensures
        t.vc_id == c.id,
        t.issuer == c.issuer,
        t.subject == c.subject,
        t.root_max_depth == s.max_depth,
        t.root_tools.to_set() == s.tools,
        t.root_tools == strings::listing(s.tools),
        t.root_budget == s.budget_usd,
        t.principal == (match c.claims.on_behalf_of {
            Some(o) => Some(o.principal_did),
            None => None,
        }),
        t.root_resources.to_set() == s.resources,
        t.root_resources == strings::listing(s.resources),
{
    let b = plan::mint_block(c, s, expires_at);
    lemma_mint_strings(c, s);
    lemma_mint_ints(c, s);
    assert(datalog::strings_in(b.facts, "vc_id"@).contains(t.vc_id));
    assert(datalog::ints_in(b.facts, "max_depth"@).contains(s.max_depth as int));
    lemma_read_number(s.max_depth, t.root_max_depth);
    lemma_read_opt(s.budget_usd, t.root_budget);
    match c.claims.on_behalf_of {
        Some(o) => {
            assert(datalog::strings_in(b.facts, "principal"@).contains(o.principal_did));
            assert(t.principal is Some);
        },
        None => {
            assert(t.principal is None);
        },
    }
}

/// A minted token reports what it was minted with: the credential's identifier, issuer,
/// subject and principal, the scope's tools, budget, cap, depth and resources, and the gates
/// of both.
pub proof fn minted_token_reports_its_grant(
    t: TokenView,
    c: CredentialView,
    s: ScopeView,
    ttl_secs: u64,
    agent_did: Seq<char>,
    key: Seq<u8>,
    attestation: Seq<u8>,
    now: int,
)
    requires
        token::minted(t, c, s, ttl_secs, agent_did, key, attestation, now),
    ensures
        t.vc_id == c.id,
        t.issuer == c.issuer,
        t.subject == c.subject,
        t.root_max_depth == s.max_depth,
        t.root_tools.to_set() == s.tools,
        t.root_budget == s.budget_usd,
        t.max_action_cost == s.max_action_cost,
        t.principal == (match c.claims.on_behalf_of {
            Some(o) => Some(o.principal_did),
            None => None,
        }),
        t.root_resources.to_set() == s.resources,
        forall|g: GateView| #[trigger]
            t.gates.contains(g) <==> s.gates.contains(g) || c.claims.required_gates.contains(g),
        hop::depth_of(t.hops) == 0,
{
    let expires_at = rules::mint_expiry(c, ttl_secs, now);
    let b = plan::mint_block(c, s, expires_at);
    let blocks = seq![b];
    assert(reading::contents(t) == blocks);
    assert(blocks[0] == b);
    lemma_root_reported(t, c, s, expires_at);
    lemma_mint_ints(c, s);
    assert(datalog::all_plain(blocks));
    reveal_with_fuel(datalog::all_facts, 2);
    assert(blocks.drop_last() =~= Seq::<BlockView>::empty());
    assert(datalog::all_facts(blocks) =~= b.facts);
    lemma_read_opt(s.max_action_cost, t.max_action_cost);
    assert forall|g: GateView| #[trigger] t.gates.contains(g) <==> s.gates.contains(g)
        || c.claims.required_gates.contains(g) by {
        lemma_mint_gates(c, s, g);
    }
}

proof fn lemma_read_number(n: u32, m: u32)
    ensures
        reading::read_number(set![n as int], Some(m)) ==> m == n,
{
    if reading::read_number(set![n as int], Some(m)) {
        let x = choose|x: i64|
            set![n as int].contains(x as int) && m == #[trigger] reading::low_bits(x);
        assert(x == n);
    }
}

proof fn lemma_read_opt(n: Option<u32>, m: Option<u32>)
    ensures
        reading::read_number(opt_set(n), m) ==> m == n,
{
    if reading::read_number(opt_set(n), m) {
        match n {
            Some(x) => {
                assert(opt_set(n).contains(x as int));
                if m is Some {
                    lemma_read_number(x, m->0);
                }
            },
            None => {
                if m is Some {
                    let x = choose|x: i64|
                        opt_set(n).contains(x as int) && m->0 == #[trigger] reading::low_bits(x);
                    assert(opt_set(n).contains(x as int));
                }
            },
        }
    }
}

/// A minted token is rooted in its credential: what it reports matches the credential, so
/// the binding of its root never refuses it.
pub proof fn minted_token_is_rooted(
    t: TokenView,
    c: CredentialView,
    s: ScopeView,
    ttl_secs: u64,
    agent_did: Seq<char>,
    key: Seq<u8>,
    attestation: Seq<u8>,
    now: int,
)
    requires
        token::minted(t, c, s, ttl_secs, agent_did, key, attestation, now),
        rules::mint_allowed(c, s, ttl_secs, agent_did, now),
    ensures
        rules::rooted_in(t, c),
{
    minted_token_reports_its_grant(t, c, s, ttl_secs, agent_did, key, attestation, now);
    assert(rules::root_scope(t).tools =~= s.tools);
    assert(rules::granted(c.claims).max_action_cost is None);
}

/// A token never outlives its credential, nor the lifetime it was minted for.
pub proof fn minted_token_expires_in_time(
    t: TokenView,
    c: CredentialView,
    s: ScopeView,
    ttl_secs: u64,
    agent_did: Seq<char>,
    key: Seq<u8>,
    attestation: Seq<u8>,
    now: int,
)
    requires
        token::minted(t, c, s, ttl_secs, agent_did, key, attestation, now),
    ensures
        hop::min_expiry(t.hops) <= c.expiration_date,
        hop::min_expiry(t.hops) <= time::later_by(now, ttl_secs as int),
{
}

// -- Narrowed tokens -----------------------------------------------------------------------------

/// What holds of a request for a longer chain holds for the shorter one: a further block
/// adds checks and takes none away, whatever it holds.
pub proof fn narrowing_only_takes_away(
    request: Seq<FactView>,
    parent: Seq<BlockView>,
    block: BlockView,
)
    requires
        parent.len() > 0,
        datalog::permitted(request, parent.push(block)),
    ensures
        datalog::permitted(request, parent),
{
    let child = parent.push(block);
    assert(child[0] == parent[0]);
    assert forall|i: int, j: int|
        0 <= i < parent.len() && 0 <= j < parent[i].checks.len() && parent[0].plain
            && parent[i].plain implies datalog::check_holds(
        #[trigger] parent[i].checks[j],
        datalog::visible(request, parent, i),
    ) by {
        assert(child[i] == parent[i]);
        assert(datalog::check_holds(
            child[i].checks[j],
            datalog::visible(request, child, i),
        ));
    }
}

proof fn lemma_all_facts_push(blocks: Seq<BlockView>, b: BlockView)
    ensures
        datalog::all_facts(blocks.push(b)) == datalog::all_facts(blocks) + b.facts,
{
    assert(blocks.push(b).drop_last() =~= blocks);
}

/// A narrowed token keeps every gate of its parent, and its cap is no looser: gates only
/// accumulate and the tightest cap of the chain is the one in force.
pub proof fn narrowing_keeps_gates_and_cap(
    child: TokenView,
    parent: TokenView,
    s: ScopeView,
    ttl_secs: u64,
    agent_did: Seq<char>,
    key: Seq<u8>,
    attestation: Seq<u8>,
    now: int,
)
    requires
        reading::readable(parent),
        token::narrowed(child, parent, s, ttl_secs, agent_did, key, attestation, now),
        datalog::all_plain(reading::contents(parent)),
    ensures
        datalog::all_plain(reading::contents(child)),
        forall|g: GateView| #[trigger]
            child.gates.contains(g) <==> parent.gates.contains(g) || s.gates.contains(g),
        parent.max_action_cost is Some ==> child.max_action_cost is Some
            && child.max_action_cost->0 <= parent.max_action_cost->0,
        s.max_action_cost is Some ==> child.max_action_cost is Some && child.max_action_cost->0
            <= s.max_action_cost->0,
        child.max_action_cost is Some ==> child.max_action_cost == parent.max_action_cost
            || child.max_action_cost == s.max_action_cost,
{
    let before = reading::contents(parent);
    let expires_at = rules::hop_expiry(parent.hops.last().expires_at, ttl_secs, now);
    let b = plan::hop_block(agent_did, key, s, expires_at);
    let after = before.push(b);
    assert(reading::contents(child) == after);
    assert forall|i: int| 0 <= i < after.len() implies (#[trigger] after[i]).plain by {
        if i < before.len() {
            assert(after[i] == before[i]);
        }
    }
    let old_facts = datalog::all_facts(before);
    let new_facts = datalog::all_facts(after);
    lemma_all_facts_push(before, b);
    assert forall|g: GateView| #[trigger] child.gates.contains(g) <==> parent.gates.contains(g)
        || s.gates.contains(g) by {
        let f = datalog::pair_fact("gate"@, g.kind, g.tool);
        lemma_concat_contains(old_facts, b.facts, f);
        lemma_hop_facts(agent_did, s, f);
        lemma_opt_int_contains("max_action_cost"@, s.max_action_cost, f);
        lemma_gate_facts_contains(s.gates, f);
        assert(f.terms.len() == 2);
        assert(f.terms[0] == TermView::Str(g.kind));
        assert(f.terms[1] == TermView::Str(g.tool));
        assert forall|x: GateView| f == #[trigger] datalog::pair_fact(
            "gate"@,
            x.kind,
            x.tool,
        ) implies x == g by {
            let h = datalog::pair_fact("gate"@, x.kind, x.tool);
            assert(h.terms[0] == f.terms[0] && h.terms[1] == f.terms[1]);
        }
        assert(datalog::pairs_in(new_facts, "gate"@).contains((g.kind, g.tool))
            <==> new_facts.contains(f));
        assert(datalog::pairs_in(old_facts, "gate"@).contains((g.kind, g.tool))
            <==> old_facts.contains(f));
        assert(parent.gates.contains(g) <==> datalog::pairs_in(old_facts, "gate"@).contains(
            (g.kind, g.tool),
        ));
        assert(child.gates.contains(g) <==> datalog::pairs_in(new_facts, "gate"@).contains(
            (g.kind, g.tool),
        ));
    }
    let old_caps = datalog::ints_in(old_facts, "max_action_cost"@);
    let new_caps = datalog::ints_in(new_facts, "max_action_cost"@);
    plan::lemma_names();
    assert forall|n: int| #[trigger] new_caps.contains(n) <==> old_caps.contains(n) || opt_set(
        s.max_action_cost,
    ).contains(n) by {
        let f = datalog::int_fact("max_action_cost"@, n);
        lemma_concat_contains(old_facts, b.facts, f);
        lemma_hop_facts(agent_did, s, f);
        lemma_opt_int_contains("max_action_cost"@, s.max_action_cost, f);
        lemma_gate_facts_contains(s.gates, f);
        lemma_int_is_not_string("max_action_cost"@, n);
        if s.max_action_cost is Some {
            lemma_int_fact_injective(
                "max_action_cost"@,
                n,
                "max_action_cost"@,
                s.max_action_cost->0 as int,
            );
        }
    }
    if parent.max_action_cost is Some {
        let m = parent.max_action_cost->0;
        let x = choose|x: i64| old_caps.contains(x as int) && m == #[trigger] reading::low_bits(x);
        assert(new_caps.contains(x as int));
        assert(child.max_action_cost is Some);
        assert(child.max_action_cost->0 <= reading::low_bits(x));
    }
    if s.max_action_cost is Some {
        let m = s.max_action_cost->0;
        let x = m as i64;
        assert(opt_set(s.max_action_cost).contains(x as int));
        assert(new_caps.contains(x as int));
        assert(child.max_action_cost is Some);
        assert(reading::low_bits(x) == m);
        assert(child.max_action_cost->0 <= reading::low_bits(x));
    }
    if child.max_action_cost is Some {
        let m = child.max_action_cost->0;
        let x = choose|x: i64| new_caps.contains(x as int) && m == #[trigger] reading::low_bits(x);
        assert(new_caps.contains(x as int));
        if old_caps.contains(x as int) {
            assert(parent.max_action_cost is Some);
            let n = parent.max_action_cost->0;
            assert(n <= reading::low_bits(x));
            let y = choose|y: i64|
                old_caps.contains(y as int) && n == #[trigger] reading::low_bits(y);
            assert(new_caps.contains(y as int));
            assert(m <= reading::low_bits(y));
        } else {
            assert(opt_set(s.max_action_cost).contains(x as int));
        }
    }
}

/// A narrowed token has its parent's root: the same authority block, hence the same root
/// tools and resources, and the same principal, credential and depth bound wherever the
/// authority block names one of each.
pub proof fn narrowing_keeps_the_root(
    child: TokenView,
    parent: TokenView,
    s: ScopeView,
    ttl_secs: u64,
    agent_did: Seq<char>,
    key: Seq<u8>,
    attestation: Seq<u8>,
    now: int,
)
    requires
        reading::readable(parent),
        token::narrowed(child, parent, s, ttl_secs, agent_did, key, attestation, now),
        reading::contents(parent)[0].plain,
    ensures
        reading::contents(child)[0] == reading::contents(parent)[0],
        child.root_tools == parent.root_tools,
        child.root_resources == parent.root_resources,
        child.principal is Some == parent.principal is Some,
        forall|p: Seq<char>|
            #![trigger set![p]]
            datalog::strings_in(reading::contents(parent)[0].facts, "principal"@) == set![p]
                ==> child.principal == parent.principal,
        forall|p: Seq<char>|
            #![trigger set![p]]
            datalog::strings_in(reading::contents(parent)[0].facts, "vc_id"@) == set![p]
                ==> child.vc_id == parent.vc_id,
        forall|p: Seq<char>|
            #![trigger set![p]]
            datalog::strings_in(reading::contents(parent)[0].facts, "issuer"@) == set![p]
                ==> child.issuer == parent.issuer,
        forall|p: Seq<char>|
            #![trigger set![p]]
            datalog::strings_in(reading::contents(parent)[0].facts, "subject"@) == set![p]
                ==> child.subject == parent.subject,
        forall|n: u32|
            #![trigger set![n as int]]
            datalog::ints_in(reading::contents(parent)[0].facts, "max_depth"@) == set![n as int]
                ==> child.root_max_depth == parent.root_max_depth,
{
    let f = reading::contents(parent)[0].facts;
    assert(reading::contents(child)[0] == reading::contents(parent)[0]);
    let principals = datalog::strings_in(f, "principal"@);
    if child.principal is Some {
        assert(principals.contains(child.principal->0));
    }
    if parent.principal is Some {
        assert(principals.contains(parent.principal->0));
    }
    assert forall|n: u32|
        #![trigger set![n as int]]
        datalog::ints_in(f, "max_depth"@) == set![n as int] implies child.root_max_depth
        == parent.root_max_depth by {
        assert(set![n as int].contains(n as int));
        lemma_read_number(n, child.root_max_depth);
        lemma_read_number(n, parent.root_max_depth);
    }
}

proof fn lemma_next_depth(n: nat)
    requires
        n <= usize::MAX,
        (n as u32) < u32::MAX,
    ensures
        (n + 1) as u32 == n as u32 + 1,
{
    let x = n as u128;
    assert((x as u32) < u32::MAX && x < 0x1_0000_0000_0000_0000 ==> ((x + 1) as u32) == (x as u32)
        + 1) by (bit_vector);
}

/// A narrowed token is one delegation deeper, within the depth bound, and expires no later
/// than its parent.
pub proof fn narrowing_deepens_and_shortens(
    child: TokenView,
    parent: TokenView,
    s: ScopeView,
    ttl_secs: u64,
    agent_did: Seq<char>,
    key: Seq<u8>,
    attestation: Seq<u8>,
    now: int,
)
    requires
        reading::readable(parent),
        parent.hops.len() <= usize::MAX,
        rules::narrow_allowed(parent, s),
        token::narrowed(child, parent, s, ttl_secs, agent_did, key, attestation, now),
    ensures
        hop::depth_of(child.hops) == hop::depth_of(parent.hops) + 1,
        hop::depth_of(child.hops) <= parent.root_max_depth,
        hop::min_expiry(child.hops) <= hop::min_expiry(parent.hops),
        child.hops.last().expires_at <= parent.hops.last().expires_at,
        s.tools.subset_of(parent.hops.last().tools.to_set()),
{
    assert(child.hops.drop_last() =~= parent.hops);
    lemma_next_depth((parent.hops.len() - 1) as nat);
}

// -- Runs of minting and narrowing -----------------------------------------------------------------

/// One step of a run: the scope and the lifetime that were asked for, the agent with its
/// delegation key and its attestation, and the time.
#[verifier::ext_equal]
pub struct Step {
    pub scope: ScopeView,
    pub ttl_secs: u64,
    pub agent_did: Seq<char>,
    pub key: Seq<u8>,
    pub attestation: Seq<u8>,
    pub now: int,
}

/// Whether a step mints a token from a credential.
pub open spec fn mints(t: TokenView, c: CredentialView, s: Step) -> bool {
    &&& rules::mint_allowed(c, s.scope, s.ttl_secs, s.agent_did, s.now)
    &&& token::minted(t, c, s.scope, s.ttl_secs, s.agent_did, s.key, s.attestation, s.now)
}

/// Whether a step narrows a token to another.
pub open spec fn narrows(child: TokenView, parent: TokenView, s: Step) -> bool {
    &&& rules::narrow_allowed(parent, s.scope)
    &&& token::narrowed(
        child,
        parent,
        s.scope,
        s.ttl_secs,
        s.agent_did,
        s.key,
        s.attestation,
        s.now,
    )
}

/// Whether tokens come from a credential step by step: the first is minted, each other narrowed
/// from the one before.
pub open spec fn is_run(tokens: Seq<TokenView>, steps: Seq<Step>, c: CredentialView) -> bool {
    &&& tokens.len() == steps.len()
    &&& tokens.len() > 0
    &&& mints(tokens[0], c, steps[0])
    &&& forall|k: int|
        0 < k < tokens.len() ==> narrows(#[trigger] tokens[k], tokens[k - 1], steps[k])
}

/// Whether a scope is within that of an ancestor: no tool beyond it, no budget above its own,
/// a cap at most its own where it has one, and no cap above its budget.
pub open spec fn within_ancestor(child: ScopeView, parent: ScopeView) -> bool {
    &&& child.tools.subset_of(parent.tools)
    &&& scope::no_looser(child.budget_usd, parent.budget_usd)
    &&& parent.max_action_cost is Some ==> child.max_action_cost is Some
        && child.max_action_cost->0 <= parent.max_action_cost->0
    &&& scope::no_looser(child.max_action_cost, parent.budget_usd)
}

/// What a token of a run holds of the steps up to its own.
spec fn run_holds(t: TokenView, steps: Seq<Step>, j: int) -> bool {
    &&& reading::readable(t)
    &&& datalog::all_plain(reading::contents(t))
    &&& t.hops.len() == j + 1
    &&& forall|k: int|
        0 <= k <= j ==> (#[trigger] t.hops[k]).tools.to_set() == steps[k].scope.tools
            && t.hops[k].budget_usd == steps[k].scope.budget_usd
    &&& forall|k: int|
        0 <= k <= j && (#[trigger] steps[k]).scope.max_action_cost is Some
            ==> t.max_action_cost is Some && t.max_action_cost->0
            <= steps[k].scope.max_action_cost->0
}

proof fn lemma_run(tokens: Seq<TokenView>, steps: Seq<Step>, c: CredentialView, j: int)
    requires
        is_run(tokens, steps, c),
        0 <= j < tokens.len(),
    ensures
        run_holds(tokens[j], steps, j),
    decreases j,
{
    let t = tokens[j];
    let s = steps[j];
    if j == 0 {
        minted_token_reports_its_grant(
            t,
            c,
            s.scope,
            s.ttl_secs,
            s.agent_did,
            s.key,
            s.attestation,
            s.now,
        );
        let b = reading::contents(t);
        assert(b[0].plain);
        assert(datalog::all_plain(b));
    } else {
        let parent = tokens[j - 1];
        lemma_run(tokens, steps, c, j - 1);
        assert(narrows(t, parent, s));
        narrowing_keeps_gates_and_cap(
            t,
            parent,
            s.scope,
            s.ttl_secs,
            s.agent_did,
            s.key,
            s.attestation,
            s.now,
        );
        assert forall|k: int| 0 <= k <= j implies (#[trigger] t.hops[k]).tools.to_set()
            == steps[k].scope.tools && t.hops[k].budget_usd == steps[k].scope.budget_usd by {
            if k < j {
                assert(t.hops[k] == parent.hops[k]);
            }
        }
    }
}

/// What may be narrowed to from a token of a run is within the limits of every step before.
proof fn lemma_limits(t: TokenView, steps: Seq<Step>, j: int, s: ScopeView, i: int)
    requires
        run_holds(t, steps, j),
        rules::narrow_allowed(t, s),
        0 <= i <= j,
    ensures
        scope::no_looser(s.budget_usd, steps[i].scope.budget_usd),
        steps[i].scope.max_action_cost is Some ==> s.max_action_cost is Some
            && s.max_action_cost->0 <= steps[i].scope.max_action_cost->0,
        scope::no_looser(s.max_action_cost, steps[i].scope.budget_usd),
{
    let leaf = rules::leaf_scope(t);
    assert(scope::subset_scope(rules::compared(s, leaf.max_depth), leaf));
    hop::least_budget_is_tightest(t.hops);
    assert(t.hops[i].budget_usd == steps[i].scope.budget_usd);
}

proof fn lemma_leaf_tools(t: TokenView, steps: Seq<Step>, j: int, s: ScopeView)
    requires
        run_holds(t, steps, j),
        rules::narrow_allowed(t, s),
        0 <= j,
    ensures
        s.tools.subset_of(steps[j].scope.tools),
{
    let leaf = rules::leaf_scope(t);
    assert(scope::subset_scope(rules::compared(s, leaf.max_depth), leaf));
    assert(t.hops.last() == t.hops[j]);
    assert(t.hops[j].tools.to_set() == steps[j].scope.tools);
}

proof fn lemma_tools(tokens: Seq<TokenView>, steps: Seq<Step>, c: CredentialView, i: int, j: int)
    requires
        is_run(tokens, steps, c),
        0 <= i <= j < tokens.len(),
    ensures
        steps[j].scope.tools.subset_of(steps[i].scope.tools),
    decreases j,
{
    if i < j {
        lemma_run(tokens, steps, c, j - 1);
        assert(narrows(tokens[j], tokens[j - 1], steps[j]));
        lemma_leaf_tools(tokens[j - 1], steps, j - 1, steps[j].scope);
        lemma_tools(tokens, steps, c, i, j - 1);
    }
}

/// No run of minting and narrowing widens: whatever the number of hops, each token's scope is
/// within that of every token before it, and its tools are among those of the credential.
pub proof fn every_token_is_within_its_ancestors(
    tokens: Seq<TokenView>,
    steps: Seq<Step>,
    c: CredentialView,
    i: int,
    j: int,
)
    requires
        is_run(tokens, steps, c),
        0 <= i < j < tokens.len(),
    ensures
        within_ancestor(steps[j].scope, steps[i].scope),
        steps[j].scope.tools.subset_of(c.claims.tools.to_set()),
{
    lemma_run(tokens, steps, c, j - 1);
    assert(narrows(tokens[j], tokens[j - 1], steps[j]));
    lemma_limits(tokens[j - 1], steps, j - 1, steps[j].scope, i);
    lemma_tools(tokens, steps, c, i, j);
    lemma_tools(tokens, steps, c, 0, j);
    assert(rules::mint_allowed(
        c,
        steps[0].scope,
        steps[0].ttl_secs,
        steps[0].agent_did,
        steps[0].now,
    ));
}

proof fn lemma_step(child: TokenView, parent: TokenView, s: Step, request: Seq<FactView>)
    requires
        reading::readable(parent),
        datalog::all_plain(reading::contents(parent)),
        narrows(child, parent, s),
    ensures
        datalog::permitted(request, reading::contents(child)) ==> datalog::permitted(
            request,
            reading::contents(parent),
        ),
        hop::min_expiry(child.hops) <= hop::min_expiry(parent.hops),
{
    let expires_at = rules::hop_expiry(parent.hops.last().expires_at, s.ttl_secs, s.now);
    let b = plan::hop_block(s.agent_did, s.key, s.scope, expires_at);
    let before = reading::contents(parent);
    assert(reading::contents(child) == before.push(b));
    if datalog::permitted(request, reading::contents(child)) {
        narrowing_only_takes_away(request, before, b);
    }
    assert(child.hops.drop_last() =~= parent.hops);
}

proof fn lemma_step_gates(child: TokenView, parent: TokenView, s: Step)
    requires
        reading::readable(parent),
        datalog::all_plain(reading::contents(parent)),
        narrows(child, parent, s),
    ensures
        forall|g: GateView| #[trigger]
            child.gates.contains(g) <==> parent.gates.contains(g) || s.scope.gates.contains(g),
{
    narrowing_keeps_gates_and_cap(
        child,
        parent,
        s.scope,
        s.ttl_secs,
        s.agent_did,
        s.key,
        s.attestation,
        s.now,
    );
}

proof fn lemma_step_grows(child: TokenView, parent: TokenView, s: Step)
    requires
        reading::readable(parent),
        narrows(child, parent, s),
    ensures
        hop::min_expiry(child.hops) <= hop::min_expiry(parent.hops),
        child.hops.last().agent_did == s.agent_did,
        child.hops.drop_last() == parent.hops,
        reading::contents(child).drop_last() == reading::contents(parent),
{
    assert(child.hops.drop_last() =~= parent.hops);
    assert(reading::contents(child).drop_last() =~= reading::contents(parent));
}

/// What a token of a run reports of its root is what the first step gave it, and its depth is
/// that of its step.
proof fn lemma_run_root(tokens: Seq<TokenView>, steps: Seq<Step>, c: CredentialView, j: int)
    requires
        is_run(tokens, steps, c),
        0 <= j < tokens.len(),
    ensures
        tokens[j].vc_id == c.id,
        tokens[j].issuer == c.issuer,
        tokens[j].subject == c.subject,
        tokens[j].root_max_depth == steps[0].scope.max_depth,
        tokens[j].root_tools == strings::listing(steps[0].scope.tools),
        tokens[j].root_budget == steps[0].scope.budget_usd,
        tokens[j].principal == (match c.claims.on_behalf_of {
            Some(o) => Some(o.principal_did),
            None => None,
        }),
        tokens[j].root_resources == strings::listing(steps[0].scope.resources),
        hop::depth_of(tokens[j].hops) == j,
        j <= tokens[j].root_max_depth,
    decreases j,
{
    let t = tokens[j];
    lemma_run(tokens, steps, c, j);
    lemma_run_blocks(tokens, steps, c, j);
    assert(block_of_step(t, steps, c, 0));
    lemma_root_reported(t, c, steps[0].scope, t.hops[0].expires_at);
    if j > 0 {
        lemma_run_root(tokens, steps, c, j - 1);
        assert(narrows(t, tokens[j - 1], steps[j]));
    }
}

/// An action that a token of a run permits, every token before it permits too; the gates only
/// accumulate, and no token outlives one before it.
pub proof fn every_token_permits_no_more_than_its_ancestors(
    tokens: Seq<TokenView>,
    steps: Seq<Step>,
    c: CredentialView,
    request: Seq<FactView>,
    i: int,
    j: int,
)
    requires
        is_run(tokens, steps, c),
        0 <= i <= j < tokens.len(),
    ensures
        datalog::permitted(request, reading::contents(tokens[j])) ==> datalog::permitted(
            request,
            reading::contents(tokens[i]),
        ),
        forall|g: GateView| #[trigger]
            tokens[i].gates.contains(g) ==> tokens[j].gates.contains(g),
        hop::min_expiry(tokens[j].hops) <= hop::min_expiry(tokens[i].hops),
    decreases j,
{
    if i < j {
        every_token_permits_no_more_than_its_ancestors(tokens, steps, c, request, i, j - 1);
        lemma_run(tokens, steps, c, j - 1);
        assert(narrows(tokens[j], tokens[j - 1], steps[j]));
        lemma_step(tokens[j], tokens[j - 1], steps[j], request);
        lemma_step_gates(tokens[j], tokens[j - 1], steps[j]);
        assert forall|g: GateView| #[trigger] tokens[i].gates.contains(g) implies tokens[
            j
        ].gates.contains(g) by {
            assert(tokens[j - 1].gates.contains(g));
        }
    }
}

/// Each narrowing of a run changes what it should and nothing else: the gates are the parent's and
/// the scope's, the chain is one delegation deeper and within the depth bound, it expires no later,
/// the leaf is the agent it was narrowed to, and the principal, the credential, the subject and the
/// root's scope are the parent's.
pub proof fn each_narrowing_adds_to_its_parent(
    tokens: Seq<TokenView>,
    steps: Seq<Step>,
    c: CredentialView,
    j: int,
)
    requires
        is_run(tokens, steps, c),
        0 < j < tokens.len(),
    ensures
        forall|g: GateView| #[trigger]
            tokens[j].gates.contains(g) <==> tokens[j - 1].gates.contains(g)
                || steps[j].scope.gates.contains(g),
        hop::depth_of(tokens[j].hops) == hop::depth_of(tokens[j - 1].hops) + 1,
        hop::depth_of(tokens[j].hops) == j,
        j <= tokens[j].root_max_depth,
        hop::min_expiry(tokens[j].hops) <= hop::min_expiry(tokens[j - 1].hops),
        tokens[j].hops.last().agent_did == steps[j].agent_did,
        tokens[j].hops.drop_last() == tokens[j - 1].hops,
        reading::contents(tokens[j]).drop_last() == reading::contents(tokens[j - 1]),
        tokens[j].principal == tokens[j - 1].principal,
        tokens[j].vc_id == tokens[j - 1].vc_id,
        tokens[j].issuer == tokens[j - 1].issuer,
        tokens[j].subject == tokens[j - 1].subject,
        tokens[j].root_tools == tokens[j - 1].root_tools,
        tokens[j].root_resources == tokens[j - 1].root_resources,
        tokens[j].root_budget == tokens[j - 1].root_budget,
        tokens[j].root_max_depth == tokens[j - 1].root_max_depth,
{
    lemma_run(tokens, steps, c, j - 1);
    assert(narrows(tokens[j], tokens[j - 1], steps[j]));
    lemma_step_gates(tokens[j], tokens[j - 1], steps[j]);
    lemma_step_grows(tokens[j], tokens[j - 1], steps[j]);
    lemma_run_root(tokens, steps, c, j);
    lemma_run_root(tokens, steps, c, j - 1);
}

/// A leaf binding covers the whole Biscuit: tokens with one binding carry the same bytes, so that
/// a stripped or substituted chain has another, unless SHA-256 fails on the two.
pub proof fn a_leaf_binding_covers_the_whole_token(a: TokenView, b: TokenView)
    requires
        token::leaf_binding_of(a) == token::leaf_binding_of(b),
    ensures
        a.biscuit == b.biscuit || crypto::breaks_on(set![a.biscuit, b.biscuit]),
{
    let inputs = set![a.biscuit, b.biscuit];
    assert(inputs.contains(a.biscuit) && inputs.contains(b.biscuit));
    crypto::lemma_hex_round_trip(crypto::sha256_digest(a.biscuit));
    crypto::lemma_hex_round_trip(crypto::sha256_digest(b.biscuit));
}

// -- Identities ------------------------------------------------------------------------------------

/// A token minted by an agent with a `did:key` proves its identity: checking its hops gives
/// `Ok`, and nothing else.
pub proof fn minted_token_proves_its_identity(
    t: TokenView,
    c: CredentialView,
    s: ScopeView,
    ttl_secs: u64,
    k: KeyView,
    key: Seq<u8>,
    attestation: Seq<u8>,
    now: int,
    r: Result<(), ErrorView>,
)
    requires
        k.bytes.len() == did::key_length(k.algorithm),
        rules::mint_allowed(c, s, ttl_secs, did::did_key_text(k), now),
        token::minted(t, c, s, ttl_secs, did::did_key_text(k), key, attestation, now),
        did::attested_by(Ok(k), key, attestation) is Ok,
    ensures
        token::identity_outcome(t, None, r) <==> r is Ok,
{
    let did = did::did_key_text(k);
    minted_token_reports_its_grant(t, c, s, ttl_secs, did, key, attestation, now);
    let blocks = reading::contents(t);
    did::did_key_round_trip(k);
    assert(text::begins(did, "did:key:"@)) by {
        assert(did.take("did:key:"@.len() as int) =~= "did:key:"@);
    }
    assert(token::chain_error(t, blocks) is None);
    assert(token::hop_attestation(t.hops[0], None, Ok(())));
    assert(token::hop_proved(t, blocks, None, 0));
    if let Err(e) = r {
        if token::identity_outcome(t, None, r) {
            let j = choose|j: int|
                {
                    &&& 0 <= j < t.hops.len()
                    &&& #[trigger] token::hop_fails(t, blocks, None, j, e)
                    &&& forall|i: int|
                        0 <= i < j ==> #[trigger] token::hop_proved(t, blocks, None, i)
                };
            assert(j == 0);
        }
    }
}

/// A chain whose identities hold still has them when it is narrowed to an agent with a
/// `did:key`.
pub proof fn narrowed_token_proves_its_identity(
    child: TokenView,
    parent: TokenView,
    s: ScopeView,
    ttl_secs: u64,
    k: KeyView,
    key: Seq<u8>,
    attestation: Seq<u8>,
    now: int,
    subject: Seq<char>,
)
    requires
        k.bytes.len() == did::key_length(k.algorithm),
        reading::readable(parent),
        reading::contents(parent)[0].plain,
        datalog::strings_in(reading::contents(parent)[0].facts, "subject"@) == set![subject],
        token::identity_outcome(parent, None, Ok(())),
        token::narrowed(child, parent, s, ttl_secs, did::did_key_text(k), key, attestation, now),
        did::attested_by(Ok(k), key, attestation) is Ok,
    ensures
        token::identity_outcome(child, None, Ok(())),
{
    let did = did::did_key_text(k);
    narrowing_keeps_the_root(child, parent, s, ttl_secs, did, key, attestation, now);
    assert(set![subject].contains(subject));
    let before = reading::contents(parent);
    let after = reading::contents(child);
    let n = parent.hops.len() as int;
    did::did_key_round_trip(k);
    assert(text::begins(did, "did:key:"@)) by {
        assert(did.take("did:key:"@.len() as int) =~= "did:key:"@);
    }
    assert(token::chain_error(parent, before) is None);
    assert(child.hops[0] == parent.hops[0]);
    assert(token::chain_error(child, after) is None);
    assert forall|j: int| 0 <= j < child.hops.len() implies #[trigger] token::hop_proved(
        child,
        after,
        None,
        j,
    ) by {
        if j < n {
            assert(token::hop_proved(parent, before, None, j));
            assert(child.hops[j] == parent.hops[j]);
            assert(after[j] == before[j]);
        } else {
            assert(token::hop_attestation(child.hops[j], None, Ok(())));
        }
    }
}

// -- Use within every hop ---------------------------------------------------------------------------

/// Whether a name is one of those that a request's facts have.
pub open spec fn request_name(name: Seq<char>) -> bool {
    name == "time"@ || name == "operation"@ || name == "resource"@ || name == "action_cost"@
        || name == "acting_for"@
}

/// Whether no fact of a list could be taken for one of the request's.
pub open spec fn no_request_facts(facts: Seq<FactView>) -> bool {
    forall|i: int| 0 <= i < facts.len() ==> !request_name((#[trigger] facts[i]).name)
}

/// No fact of an authority block can be taken for one of the request's.
pub proof fn mint_facts_are_not_request_facts(c: CredentialView, s: ScopeView)
    ensures
        no_request_facts(plan::mint_facts(c, s)),
{
    plan::lemma_names();
    let facts = plan::mint_facts(c, s);
    assert forall|i: int| 0 <= i < facts.len() implies !request_name((#[trigger] facts[i]).name) by {
        let f = facts[i];
        assert(facts.contains(f));
        lemma_mint_facts(c, s, f);
        lemma_opt_int_contains("budget"@, s.budget_usd, f);
        lemma_opt_int_contains("max_action_cost"@, s.max_action_cost, f);
        lemma_str_facts_contains("root_tool"@, strings::listing(s.tools), f);
        lemma_str_facts_contains("root_resource"@, strings::listing(s.resources), f);
        lemma_gate_facts_contains(s.gates, f);
        lemma_gate_facts_contains(c.claims.required_gates, f);
        if c.claims.on_behalf_of is Some {
            lemma_one_contains(
                datalog::str_fact("principal"@, c.claims.on_behalf_of->0.principal_did),
                f,
            );
        }
    }
}

/// No fact of a hop's block can be taken for one of the request's.
pub proof fn hop_facts_are_not_request_facts(agent_did: Seq<char>, s: ScopeView)
    ensures
        no_request_facts(plan::hop_facts(agent_did, s)),
{
    plan::lemma_names();
    let facts = plan::hop_facts(agent_did, s);
    assert forall|i: int| 0 <= i < facts.len() implies !request_name((#[trigger] facts[i]).name) by {
        let f = facts[i];
        assert(facts.contains(f));
        lemma_hop_facts(agent_did, s, f);
        lemma_opt_int_contains("max_action_cost"@, s.max_action_cost, f);
        lemma_gate_facts_contains(s.gates, f);
    }
}

/// The facts of a request.
proof fn lemma_request_facts(a: ActionView, now: int, f: FactView)
    ensures
        token::request_of(a, now).contains(f) <==> {
            ||| f == datalog::date_fact("time"@, time::second_of(now))
            ||| f == datalog::str_fact("operation"@, a.tool)
            ||| a.resource is Some && f == datalog::str_fact("resource"@, a.resource->0)
            ||| a.cost is Some && f == datalog::int_fact("action_cost"@, a.cost->0 as int)
            ||| a.acting_for is Some && f == datalog::str_fact("acting_for"@, a.acting_for->0)
        },
{
    let p0 = seq![
        datalog::date_fact("time"@, time::second_of(now)),
        datalog::str_fact("operation"@, a.tool),
    ];
    let r = match a.resource {
        Some(x) => seq![datalog::str_fact("resource"@, x)],
        None => Seq::<FactView>::empty(),
    };
    let p = match a.acting_for {
        Some(x) => seq![datalog::str_fact("acting_for"@, x)],
        None => Seq::<FactView>::empty(),
    };
    lemma_concat_contains(p0, r, f);
    lemma_concat_contains(p0 + r, plan::opt_int_fact("action_cost"@, a.cost), f);
    lemma_concat_contains(p0 + r + plan::opt_int_fact("action_cost"@, a.cost), p, f);
    lemma_opt_int_contains("action_cost"@, a.cost, f);
    assert(p0[0] == datalog::date_fact("time"@, time::second_of(now)));
    assert(p0[1] == datalog::str_fact("operation"@, a.tool));
    if a.resource is Some {
        lemma_one_contains(datalog::str_fact("resource"@, a.resource->0), f);
    }
    if a.acting_for is Some {
        lemma_one_contains(datalog::str_fact("acting_for"@, a.acting_for->0), f);
    }
}

/// A request-named fact that a check of block `i` sees is the request's own.
proof fn lemma_seen(a: ActionView, now: int, blocks: Seq<BlockView>, i: int, f: FactView)
    requires
        0 <= i < blocks.len(),
        no_request_facts(blocks[0].facts),
        no_request_facts(blocks[i].facts),
        request_name(f.name),
        datalog::visible(token::request_of(a, now), blocks, i).contains(f),
    ensures
        token::request_of(a, now).contains(f),
{
    let r = token::request_of(a, now);
    lemma_concat_contains(r + blocks[0].facts, blocks[i].facts, f);
    lemma_concat_contains(r, blocks[0].facts, f);
    if blocks[0].facts.contains(f) {
        let k = choose|k: int| 0 <= k < blocks[0].facts.len() && blocks[0].facts[k] == f;
        assert(!request_name(blocks[0].facts[k].name));
    }
    if blocks[i].facts.contains(f) {
        let k = choose|k: int| 0 <= k < blocks[i].facts.len() && blocks[i].facts[k] == f;
        assert(!request_name(blocks[i].facts[k].name));
    }
}

/// Whether an action at a time meets a check of a block, where the block and the authority
/// block hold `facts`.
pub open spec fn meets(a: ActionView, now: int, c: CheckView, facts: Seq<FactView>) -> bool {
    match c {
        CheckView::Operation(v) => v.contains(a.tool),
        CheckView::Resource(v) => a.resource is Some && v.contains(a.resource->0),
        CheckView::ActionCost(n) => a.cost is Some && a.cost->0 <= n,
        CheckView::NotAfter(d) => time::second_of(now) <= d,
        CheckView::ActingFor => a.acting_for is Some && facts.contains(
            datalog::str_fact("principal"@, a.acting_for->0),
        ),
        CheckView::Other => true,
    }
}

/// A permitted action meets every check of a block that, like the authority block, holds no
/// fact of the request's: its tool and its resource are listed, it has a cost and that is at
/// most the cap, and its time is not past the expiry. What other hops' blocks hold makes no
/// difference: a hop cannot loosen another's checks.
pub proof fn permitted_action_meets_every_check(
    a: ActionView,
    now: int,
    blocks: Seq<BlockView>,
    i: int,
    j: int,
)
    requires
        datalog::permitted(token::request_of(a, now), blocks),
        0 <= i < blocks.len(),
        0 <= j < blocks[i].checks.len(),
        blocks[0].plain,
        blocks[i].plain,
        no_request_facts(blocks[0].facts),
        no_request_facts(blocks[i].facts),
    ensures
        meets(a, now, blocks[i].checks[j], blocks[0].facts + blocks[i].facts),
{
    plan::lemma_names();
    let seen = datalog::visible(token::request_of(a, now), blocks, i);
    let c = blocks[i].checks[j];
    assert(datalog::check_holds(c, seen));
    match c {
        CheckView::Operation(v) => {
            let s = choose|s: Seq<char>|
                v.contains(s) && seen.contains(#[trigger] datalog::str_fact("operation"@, s));
            let f = datalog::str_fact("operation"@, s);
            lemma_seen(a, now, blocks, i, f);
            lemma_request_facts(a, now, f);
            lemma_str_fact_injective("operation"@, s, "operation"@, a.tool);
            lemma_request_shapes(a, now, f);
        },
        CheckView::Resource(v) => {
            let s = choose|s: Seq<char>|
                v.contains(s) && seen.contains(#[trigger] datalog::str_fact("resource"@, s));
            let f = datalog::str_fact("resource"@, s);
            lemma_seen(a, now, blocks, i, f);
            lemma_request_facts(a, now, f);
            lemma_request_shapes(a, now, f);
            if a.resource is Some {
                lemma_str_fact_injective("resource"@, s, "resource"@, a.resource->0);
            }
        },
        CheckView::ActionCost(n) => {
            let k = choose|k: int|
                k <= n && seen.contains(#[trigger] datalog::int_fact("action_cost"@, k));
            let f = datalog::int_fact("action_cost"@, k);
            lemma_seen(a, now, blocks, i, f);
            lemma_request_facts(a, now, f);
            lemma_request_shapes(a, now, f);
            if a.cost is Some {
                lemma_int_fact_injective("action_cost"@, k, "action_cost"@, a.cost->0 as int);
            }
        },
        CheckView::NotAfter(d) => {
            let t = choose|t: int|
                t <= d && seen.contains(#[trigger] datalog::date_fact("time"@, t));
            let f = datalog::date_fact("time"@, t);
            lemma_seen(a, now, blocks, i, f);
            lemma_request_facts(a, now, f);
            lemma_request_shapes(a, now, f);
            let g = datalog::date_fact("time"@, time::second_of(now));
            assert(f.terms[0] == TermView::Date(t));
            assert(g.terms[0] == TermView::Date(time::second_of(now)));
        },
        CheckView::ActingFor => {
            let t = choose|t: TermView| #[trigger]
                seen.contains(datalog::one_fact("acting_for"@, t)) && seen.contains(
                    datalog::one_fact("principal"@, t),
                );
            let f = datalog::one_fact("acting_for"@, t);
            lemma_seen(a, now, blocks, i, f);
            lemma_request_facts(a, now, f);
            lemma_request_shapes(a, now, f);
            let p = a.acting_for->0;
            assert(f.terms[0] == t);
            assert(datalog::str_fact("acting_for"@, p).terms[0] == TermView::Str(p));
            let g = datalog::one_fact("principal"@, t);
            assert(g == datalog::str_fact("principal"@, p));
            let r = token::request_of(a, now);
            lemma_concat_contains(r + blocks[0].facts, blocks[i].facts, g);
            lemma_concat_contains(r, blocks[0].facts, g);
            lemma_concat_contains(blocks[0].facts, blocks[i].facts, g);
            lemma_request_facts(a, now, g);
        },
        CheckView::Other => {},
    }
}

/// The names of a request's facts tell them apart.
proof fn lemma_request_shapes(a: ActionView, now: int, f: FactView)
    ensures
        f == datalog::date_fact("time"@, time::second_of(now)) ==> f.name == "time"@,
        f == datalog::str_fact("operation"@, a.tool) ==> f.name == "operation"@,
        "time"@ != "operation"@,
        "time"@ != "resource"@,
        "time"@ != "action_cost"@,
        "time"@ != "acting_for"@,
        "operation"@ != "resource"@,
        "operation"@ != "action_cost"@,
        "operation"@ != "acting_for"@,
        "resource"@ != "action_cost"@,
        "resource"@ != "acting_for"@,
        "action_cost"@ != "acting_for"@,
{
    plan::lemma_names();
}

/// A permitted action of a minted chain keeps to the minted scope: it uses one of the
/// scope's tools, before the token's expiry, where the scope has a resource list or a cap it
/// touches a listed resource at a cost of at most the cap, and where the credential names a
/// principal it acts for that principal.
pub proof fn permitted_action_keeps_to_the_minted_scope(
    a: ActionView,
    now: int,
    blocks: Seq<BlockView>,
    c: CredentialView,
    s: ScopeView,
    expires_at: int,
)
    requires
        blocks.len() > 0,
        blocks[0] == plan::mint_block(c, s, expires_at),
        strings::listing(s.tools).to_set() == s.tools,
        strings::listing(s.resources).to_set() == s.resources,
        datalog::permitted(token::request_of(a, now), blocks),
    ensures
        s.tools.contains(a.tool),
        time::second_of(now) <= time::second_of(expires_at),
        s.max_action_cost is Some ==> a.cost is Some && a.cost->0 <= s.max_action_cost->0,
        strings::listing(s.resources).len() > 0 ==> a.resource is Some && s.resources.contains(
            a.resource->0,
        ),
        c.claims.on_behalf_of is Some ==> a.acting_for == Some(
            c.claims.on_behalf_of->0.principal_did,
        ),
{
    mint_facts_are_not_request_facts(c, s);
    let cap = plan::cap_check(s.max_action_cost);
    let base = plan::base_checks(s, expires_at);
    let who = plan::principal_check(c);
    let res = plan::resources_check(s.resources);
    let all = blocks[0].checks;
    let n = cap.len() as int;
    assert(all[n] == base[0]);
    permitted_action_meets_every_check(a, now, blocks, 0, n);
    assert(strings::listing(s.tools).to_set().contains(a.tool));
    assert(all[n + 1] == base[1]);
    permitted_action_meets_every_check(a, now, blocks, 0, n + 1);
    if s.max_action_cost is Some {
        assert(all[0] == cap[0]);
        permitted_action_meets_every_check(a, now, blocks, 0, 0);
    }
    if c.claims.on_behalf_of is Some {
        assert(all[n + 2] == who[0]);
        permitted_action_meets_every_check(a, now, blocks, 0, n + 2);
        let p = a.acting_for->0;
        lemma_concat_contains(
            blocks[0].facts,
            blocks[0].facts,
            datalog::str_fact("principal"@, p),
        );
        lemma_mint_strings(c, s);
        assert(datalog::strings_in(blocks[0].facts, "principal"@).contains(p));
    }
    if strings::listing(s.resources).len() > 0 {
        let k = n + 2 + who.len();
        assert(all[k] == res[0]);
        permitted_action_meets_every_check(a, now, blocks, 0, k);
        assert(strings::listing(s.resources).to_set().contains(a.resource->0));
    }
}

/// A permitted action of a chain keeps to the scope of each hop in the same way.
pub proof fn permitted_action_keeps_to_every_hop(
    a: ActionView,
    now: int,
    blocks: Seq<BlockView>,
    i: int,
    agent_did: Seq<char>,
    key: Seq<u8>,
    s: ScopeView,
    expires_at: int,
)
    requires
        0 <= i < blocks.len(),
        blocks[0].plain,
        no_request_facts(blocks[0].facts),
        blocks[i] == plan::hop_block(agent_did, key, s, expires_at),
        strings::listing(s.tools).to_set() == s.tools,
        strings::listing(s.resources).to_set() == s.resources,
        datalog::permitted(token::request_of(a, now), blocks),
    ensures
        s.tools.contains(a.tool),
        time::second_of(now) <= time::second_of(expires_at),
        s.max_action_cost is Some ==> a.cost is Some && a.cost->0 <= s.max_action_cost->0,
        strings::listing(s.resources).len() > 0 ==> a.resource is Some && s.resources.contains(
            a.resource->0,
        ),
{
    hop_facts_are_not_request_facts(agent_did, s);
    let base = plan::base_checks(s, expires_at);
    let res = plan::resources_check(s.resources);
    let cap = plan::cap_check(s.max_action_cost);
    let all = blocks[i].checks;
    assert(all[0] == base[0]);
    permitted_action_meets_every_check(a, now, blocks, i, 0);
    assert(strings::listing(s.tools).to_set().contains(a.tool));
    assert(all[1] == base[1]);
    permitted_action_meets_every_check(a, now, blocks, i, 1);
    if strings::listing(s.resources).len() > 0 {
        assert(all[2] == res[0]);
        permitted_action_meets_every_check(a, now, blocks, i, 2);
        assert(strings::listing(s.resources).to_set().contains(a.resource->0));
    }
    if s.max_action_cost is Some {
        let k = 2 + res.len() as int;
        assert(all[k] == cap[0]);
        permitted_action_meets_every_check(a, now, blocks, i, k);
    }
}

// -- What a chain permits ---------------------------------------------------------------------------

/// A check that an action meets holds over the facts that the check sees.
proof fn lemma_met(a: ActionView, now: int, blocks: Seq<BlockView>, i: int, c: CheckView)
    requires
        0 <= i < blocks.len(),
        meets(a, now, c, blocks[0].facts + blocks[i].facts),
    ensures
        datalog::check_holds(c, datalog::visible(token::request_of(a, now), blocks, i)),
{
    let r = token::request_of(a, now);
    let seen = datalog::visible(r, blocks, i);
    assert forall|f: FactView| #[trigger] r.contains(f) implies seen.contains(f) by {
        lemma_concat_contains(r + blocks[0].facts, blocks[i].facts, f);
        lemma_concat_contains(r, blocks[0].facts, f);
    }
    match c {
        CheckView::Operation(v) => {
            let f = datalog::str_fact("operation"@, a.tool);
            lemma_request_facts(a, now, f);
            assert(r.contains(f));
            assert(v.contains(a.tool) && seen.contains(datalog::str_fact("operation"@, a.tool)));
        },
        CheckView::Resource(v) => {
            let x = a.resource->0;
            let f = datalog::str_fact("resource"@, x);
            lemma_request_facts(a, now, f);
            assert(r.contains(f));
            assert(v.contains(x) && seen.contains(datalog::str_fact("resource"@, x)));
        },
        CheckView::ActionCost(n) => {
            let x = a.cost->0 as int;
            let f = datalog::int_fact("action_cost"@, x);
            lemma_request_facts(a, now, f);
            assert(r.contains(f));
            assert(x <= n && seen.contains(datalog::int_fact("action_cost"@, x)));
        },
        CheckView::NotAfter(d) => {
            let x = time::second_of(now);
            let f = datalog::date_fact("time"@, x);
            lemma_request_facts(a, now, f);
            assert(r.contains(f));
            assert(x <= d && seen.contains(datalog::date_fact("time"@, x)));
        },
        CheckView::ActingFor => {
            let p = a.acting_for->0;
            let t = TermView::Str(p);
            let f = datalog::str_fact("acting_for"@, p);
            let g = datalog::str_fact("principal"@, p);
            lemma_request_facts(a, now, f);
            assert(r.contains(f));
            lemma_concat_contains(blocks[0].facts, blocks[i].facts, g);
            lemma_concat_contains(r + blocks[0].facts, blocks[i].facts, g);
            lemma_concat_contains(r, blocks[0].facts, g);
            assert(f == datalog::one_fact("acting_for"@, t));
            assert(g == datalog::one_fact("principal"@, t));
            assert(seen.contains(datalog::one_fact("acting_for"@, t)) && seen.contains(
                datalog::one_fact("principal"@, t),
            ));
        },
        CheckView::Other => {},
    }
}

/// An action that meets every check of a chain is permitted by it.
pub proof fn an_action_that_meets_every_check_is_permitted(
    a: ActionView,
    now: int,
    blocks: Seq<BlockView>,
)
    requires
        forall|i: int, j: int|
            0 <= i < blocks.len() && 0 <= j < blocks[i].checks.len() ==> meets(
                a,
                now,
                #[trigger] blocks[i].checks[j],
                blocks[0].facts + blocks[i].facts,
            ),
    ensures
        datalog::permitted(token::request_of(a, now), blocks),
{
    assert forall|i: int, j: int|
        0 <= i < blocks.len() && 0 <= j < blocks[i].checks.len() && blocks[0].plain
            && blocks[i].plain implies datalog::check_holds(
        #[trigger] blocks[i].checks[j],
        datalog::visible(token::request_of(a, now), blocks, i),
    ) by {
        lemma_met(a, now, blocks, i, blocks[i].checks[j]);
    }
}

/// Whether an action at a time is within a scope that expires: it uses one of the scope's
/// tools, before the expiry, and where the scope has a cap or a resource list it has a cost of
/// at most the cap and touches a listed resource.
pub open spec fn action_within(a: ActionView, now: int, s: ScopeView, expires_at: int) -> bool {
    &&& s.tools.contains(a.tool)
    &&& time::second_of(now) <= time::second_of(expires_at)
    &&& s.max_action_cost is Some ==> a.cost is Some && a.cost->0 <= s.max_action_cost->0
    &&& strings::listing(s.resources).len() > 0 ==> a.resource is Some && s.resources.contains(
        a.resource->0,
    )
}

/// Whether a list of checks is met.
spec fn all_met(a: ActionView, now: int, checks: Seq<CheckView>, facts: Seq<FactView>) -> bool {
    forall|j: int| 0 <= j < checks.len() ==> meets(a, now, #[trigger] checks[j], facts)
}

proof fn lemma_scope_checks(
    a: ActionView,
    now: int,
    s: ScopeView,
    expires_at: int,
    facts: Seq<FactView>,
)
    requires
        strings::listing(s.tools).to_set() == s.tools,
        strings::listing(s.resources).to_set() == s.resources,
        action_within(a, now, s, expires_at),
    ensures
        all_met(a, now, plan::base_checks(s, expires_at), facts),
        all_met(a, now, plan::cap_check(s.max_action_cost), facts),
        all_met(a, now, plan::resources_check(s.resources), facts),
{
    let (tools, resources) = (strings::listing(s.tools), strings::listing(s.resources));
    assert(tools.to_set().contains(a.tool));
    assert(tools.contains(a.tool));
    if resources.len() > 0 {
        assert(resources.to_set().contains(a.resource->0));
        assert(resources.contains(a.resource->0));
    }
    let base = plan::base_checks(s, expires_at);
    assert forall|j: int| 0 <= j < base.len() implies meets(a, now, #[trigger] base[j], facts) by {
        assert(j == 0 || j == 1);
    }
}

proof fn lemma_mint_met(
    a: ActionView,
    now: int,
    c: CredentialView,
    s: ScopeView,
    expires_at: int,
    facts: Seq<FactView>,
)
    requires
        strings::listing(s.tools).to_set() == s.tools,
        strings::listing(s.resources).to_set() == s.resources,
        action_within(a, now, s, expires_at),
        c.claims.on_behalf_of is Some ==> a.acting_for == Some(
            c.claims.on_behalf_of->0.principal_did,
        ),
    ensures
        all_met(a, now, plan::mint_checks(c, s, expires_at), plan::mint_facts(c, s) + facts),
{
    let seen = plan::mint_facts(c, s) + facts;
    lemma_scope_checks(a, now, s, expires_at, seen);
    let cap = plan::cap_check(s.max_action_cost);
    let base = plan::base_checks(s, expires_at);
    let who = plan::principal_check(c);
    let res = plan::resources_check(s.resources);
    let all = plan::mint_checks(c, s, expires_at);
    if c.claims.on_behalf_of is Some {
        let p = c.claims.on_behalf_of->0.principal_did;
        let f = datalog::str_fact("principal"@, p);
        lemma_mint_strings(c, s);
        assert(datalog::strings_in(plan::mint_facts(c, s), "principal"@).contains(p));
        assert(plan::mint_facts(c, s).contains(f));
        lemma_concat_contains(plan::mint_facts(c, s), facts, f);
        assert(meets(a, now, CheckView::ActingFor, seen));
    }
    assert forall|j: int| 0 <= j < all.len() implies meets(a, now, #[trigger] all[j], seen) by {
        let (m, n, o) = (
            cap.len() as int,
            (cap.len() + base.len()) as int,
            (cap.len() + base.len() + who.len()) as int,
        );
        if j < m {
            assert(all[j] == cap[j]);
        } else if j < n {
            assert(all[j] == base[j - m]);
        } else if j < o {
            assert(all[j] == who[j - n]);
        } else {
            assert(all[j] == res[j - o]);
        }
    }
}

proof fn lemma_hop_met(
    a: ActionView,
    now: int,
    s: ScopeView,
    expires_at: int,
    facts: Seq<FactView>,
)
    requires
        strings::listing(s.tools).to_set() == s.tools,
        strings::listing(s.resources).to_set() == s.resources,
        action_within(a, now, s, expires_at),
    ensures
        all_met(a, now, plan::hop_checks(s, expires_at), facts),
{
    lemma_scope_checks(a, now, s, expires_at, facts);
    let base = plan::base_checks(s, expires_at);
    let res = plan::resources_check(s.resources);
    let cap = plan::cap_check(s.max_action_cost);
    let all = plan::hop_checks(s, expires_at);
    assert forall|j: int| 0 <= j < all.len() implies meets(a, now, #[trigger] all[j], facts) by {
        let (m, n) = (base.len() as int, (base.len() + res.len()) as int);
        if j < m {
            assert(all[j] == base[j]);
        } else if j < n {
            assert(all[j] == res[j - m]);
        } else {
            assert(all[j] == cap[j - n]);
        }
    }
}

/// Whether block `k` of a chain is that of step `k`, with the expiry of hop `k`.
pub open spec fn block_of_step(t: TokenView, steps: Seq<Step>, c: CredentialView, k: int) -> bool {
    let s = steps[k];
    let e = t.hops[k].expires_at;
    &&& strings::listing(s.scope.tools).to_set() == s.scope.tools
    &&& strings::listing(s.scope.resources).to_set() == s.scope.resources
    &&& reading::contents(t)[k] == (if k == 0 {
        plan::mint_block(c, s.scope, e)
    } else {
        plan::hop_block(s.agent_did, s.key, s.scope, e)
    })
}

/// Every block of a token of a run is that of its step.
pub proof fn lemma_run_blocks(tokens: Seq<TokenView>, steps: Seq<Step>, c: CredentialView, j: int)
    requires
        is_run(tokens, steps, c),
        0 <= j < tokens.len(),
    ensures
        tokens[j].hops.len() == j + 1,
        reading::contents(tokens[j]).len() == j + 1,
        forall|k: int| 0 <= k <= j ==> #[trigger] block_of_step(tokens[j], steps, c, k),
    decreases j,
{
    let t = tokens[j];
    if j == 0 {
        assert(block_of_step(t, steps, c, 0));
    } else {
        let parent = tokens[j - 1];
        lemma_run_blocks(tokens, steps, c, j - 1);
        assert(narrows(t, parent, steps[j]));
        assert forall|k: int| 0 <= k <= j implies #[trigger] block_of_step(t, steps, c, k) by {
            if k < j {
                assert(block_of_step(parent, steps, c, k));
                assert(t.hops[k] == parent.hops[k]);
                assert(reading::contents(t)[k] == reading::contents(parent)[k]);
            }
        }
    }
}

/// A chain permits what lies within all of it: an action that is within the scope of every hop
/// of a run, and acts for the principal where the credential names one, is permitted.
pub proof fn an_action_within_every_hop_is_permitted(
    tokens: Seq<TokenView>,
    steps: Seq<Step>,
    c: CredentialView,
    j: int,
    a: ActionView,
    now: int,
)
    requires
        is_run(tokens, steps, c),
        0 <= j < tokens.len(),
        forall|k: int|
            0 <= k <= j ==> action_within(
                a,
                now,
                (#[trigger] steps[k]).scope,
                tokens[j].hops[k].expires_at,
            ),
        c.claims.on_behalf_of is Some ==> a.acting_for == Some(
            c.claims.on_behalf_of->0.principal_did,
        ),
    ensures
        datalog::permitted(token::request_of(a, now), reading::contents(tokens[j])),
{
    let t = tokens[j];
    let blocks = reading::contents(t);
    lemma_run_blocks(tokens, steps, c, j);
    assert forall|i: int, n: int|
        0 <= i < blocks.len() && 0 <= n < blocks[i].checks.len() implies meets(
        a,
        now,
        #[trigger] blocks[i].checks[n],
        blocks[0].facts + blocks[i].facts,
    ) by {
        assert(block_of_step(t, steps, c, i));
        assert(block_of_step(t, steps, c, 0));
        let s = steps[i];
        let e = t.hops[i].expires_at;
        assert(action_within(a, now, s.scope, e));
        if i == 0 {
            lemma_mint_met(a, now, c, s.scope, e, blocks[0].facts);
        } else {
            lemma_hop_met(a, now, s.scope, e, blocks[0].facts + blocks[i].facts);
        }
    }
    an_action_that_meets_every_check_is_permitted(a, now, blocks);
}

} // verus!
