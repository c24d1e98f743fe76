//! The contents of a token's blocks: the facts and checks that minting and attenuating
//! write, as values and as the texts handed to Biscuit.

use vstd::prelude::*;
use vstd::string::*;
use crate::approval;
use crate::approval::{Gate, GateView};
use crate::crypto;
use crate::delegation::biscuit;
use crate::delegation::datalog;
use crate::delegation::datalog::{BlockView, CheckView, FactView};
use crate::delegation::scope::{Scope, ScopeView};
use crate::error::{AgentCredsError, ErrorView};
use crate::strings;
use crate::text;
use crate::time;
use crate::time::Timestamp;
use crate::vc::{CapabilityCredential, CredentialView};

verus! {

// -- Contents -------------------------------------------------------------------------------

/// One string fact for each text of a list.
pub open spec fn str_facts(name: Seq<char>, v: Seq<Seq<char>>) -> Seq<FactView> {
    v.map_values(|s: Seq<char>| datalog::str_fact(name, s))
}

/// A number fact where there is a number.
pub open spec fn opt_int_fact(name: Seq<char>, n: Option<u32>) -> Seq<FactView> {
    match n {
        Some(x) => seq![datalog::int_fact(name, x as int)],
        None => Seq::<FactView>::empty(),
    }
}

/// One `gate` fact for each gate.
pub open spec fn gate_facts(g: Seq<GateView>) -> Seq<FactView> {
    g.map_values(|x: GateView| datalog::pair_fact("gate"@, x.kind, x.tool))
}

/// The fact of the principal that a credential names.
pub open spec fn principal_fact(c: CredentialView) -> Seq<FactView> {
    match c.claims.on_behalf_of {
        Some(o) => seq![datalog::str_fact("principal"@, o.principal_did)],
        None => Seq::<FactView>::empty(),
    }
}

/// The facts of the authority block of a token for a scope of a credential.
pub open spec fn mint_facts(c: CredentialView, s: ScopeView) -> Seq<FactView> {
    seq![
        datalog::str_fact("vc_id"@, c.id),
        datalog::str_fact("issuer"@, c.issuer),
        datalog::str_fact("subject"@, c.subject),
        datalog::int_fact("max_depth"@, s.max_depth as int),
    ] + opt_int_fact("budget"@, s.budget_usd) + opt_int_fact("max_action_cost"@, s.max_action_cost)
        + str_facts("root_tool"@, strings::listing(s.tools)) + principal_fact(c) + str_facts(
        "root_resource"@,
        strings::listing(s.resources),
    ) + gate_facts(s.gates) + gate_facts(c.claims.required_gates)
}

/// The check of a cap where there is one.
pub open spec fn cap_check(cap: Option<u32>) -> Seq<CheckView> {
    match cap {
        Some(n) => seq![CheckView::ActionCost(n as int)],
        None => Seq::<CheckView>::empty(),
    }
}

/// The check of a resource list where there is one.
pub open spec fn resources_check(resources: Set<Seq<char>>) -> Seq<CheckView> {
    if strings::listing(resources).len() == 0 {
        Seq::<CheckView>::empty()
    } else {
        seq![CheckView::Resource(strings::listing(resources))]
    }
}

/// The checks of a tool list and of an expiry.
pub open spec fn base_checks(s: ScopeView, expires_at: int) -> Seq<CheckView> {
    seq![
        CheckView::Operation(strings::listing(s.tools)),
        CheckView::NotAfter(time::second_of(expires_at)),
    ]
}

/// The check of the principal where a credential names one.
pub open spec fn principal_check(c: CredentialView) -> Seq<CheckView> {
    match c.claims.on_behalf_of {
        Some(_) => seq![CheckView::ActingFor],
        None => Seq::<CheckView>::empty(),
    }
}

/// The checks of the authority block of a token for a scope of a credential.
pub open spec fn mint_checks(c: CredentialView, s: ScopeView, expires_at: int) -> Seq<CheckView> {
    cap_check(s.max_action_cost) + base_checks(s, expires_at) + principal_check(c)
        + resources_check(s.resources)
}

/// The authority block of a token for a scope of a credential.
pub open spec fn mint_block(c: CredentialView, s: ScopeView, expires_at: int) -> BlockView {
    BlockView {
        facts: mint_facts(c, s),
        checks: mint_checks(c, s, expires_at),
        plain: true,
        signer: None,
    }
}

/// The facts of the block of a hop to an agent.
pub open spec fn hop_facts(agent_did: Seq<char>, s: ScopeView) -> Seq<FactView> {
    seq![datalog::str_fact("hop"@, agent_did)] + opt_int_fact("max_action_cost"@, s.max_action_cost)
        + gate_facts(s.gates)
}

/// The checks of the block of a hop.
pub open spec fn hop_checks(s: ScopeView, expires_at: int) -> Seq<CheckView> {
    base_checks(s, expires_at) + resources_check(s.resources) + cap_check(s.max_action_cost)
}

/// The block of a hop to an agent, signed by the agent's delegation key.
pub open spec fn hop_block(
    agent_did: Seq<char>,
    signer: Seq<u8>,
    s: ScopeView,
    expires_at: int,
) -> BlockView {
    BlockView {
        facts: hop_facts(agent_did, s),
        checks: hop_checks(s, expires_at),
        plain: true,
        signer: Some(signer),
    }
}

// -- Texts that may not stand in a block ---------------------------------------------------------

/// The first text of a list of gates that may not stand in a Datalog string term.
pub open spec fn first_unsafe_gate(g: Seq<GateView>) -> Option<Seq<char>>
    decreases g.len(),
{
    if g.len() == 0 {
        None
    } else if !datalog::safe_text(g[0].kind) {
        Some(g[0].kind)
    } else if !datalog::safe_text(g[0].tool) {
        Some(g[0].tool)
    } else {
        first_unsafe_gate(g.skip(1))
    }
}

/// The first text of an authority block, up to its expiry, that may not stand in a Datalog
/// string term.
pub open spec fn mint_head_unsafe(c: CredentialView, s: ScopeView) -> Option<Seq<char>> {
    if !datalog::safe_text(c.id) {
        Some(c.id)
    } else if !datalog::safe_text(c.issuer) {
        Some(c.issuer)
    } else if !datalog::safe_text(c.subject) {
        Some(c.subject)
    } else {
        datalog::first_unsafe(strings::listing(s.tools))
    }
}

/// The first text of an authority block, behind its expiry, that may not stand in a Datalog
/// string term.
pub open spec fn mint_tail_unsafe(c: CredentialView, s: ScopeView) -> Option<Seq<char>> {
    if c.claims.on_behalf_of is Some && !datalog::safe_text(
        c.claims.on_behalf_of->0.principal_did,
    ) {
        Some(c.claims.on_behalf_of->0.principal_did)
    } else if datalog::first_unsafe(strings::listing(s.resources)) is Some {
        datalog::first_unsafe(strings::listing(s.resources))
    } else if first_unsafe_gate(s.gates) is Some {
        first_unsafe_gate(s.gates)
    } else {
        first_unsafe_gate(c.claims.required_gates)
    }
}

/// The first text of a hop's block, up to its expiry, that may not stand in a Datalog string
/// term.
pub open spec fn hop_head_unsafe(agent_did: Seq<char>, s: ScopeView) -> Option<Seq<char>> {
    if !datalog::safe_text(agent_did) {
        Some(agent_did)
    } else {
        datalog::first_unsafe(strings::listing(s.tools))
    }
}

/// The first text of a hop's block, behind its expiry, that may not stand in a Datalog string
/// term.
pub open spec fn hop_tail_unsafe(s: ScopeView) -> Option<Seq<char>> {
    if datalog::first_unsafe(strings::listing(s.resources)) is Some {
        datalog::first_unsafe(strings::listing(s.resources))
    } else {
        first_unsafe_gate(s.gates)
    }
}

/// Whether a block cannot be written, and the error: `head` and `tail` are the first texts up to
/// and behind its expiry that may not stand in a string term. A block is written in order, so an
/// expiry that has no Datalog date comes between the two.
pub open spec fn unwritable(
    head: Option<Seq<char>>,
    expires_at: int,
    tail: Option<Seq<char>>,
    e: ErrorView,
) -> bool {
    if head is Some {
        e == datalog::unsafe_text(head->0)
    } else if !datalog::dateable(time::second_of(expires_at)) {
        e is InvalidBiscuitSignature
    } else {
        tail is Some && e == datalog::unsafe_text(tail->0)
    }
}

/// Whether a block can be written.
pub open spec fn writable(
    head: Option<Seq<char>>,
    expires_at: int,
    tail: Option<Seq<char>>,
) -> bool {
    head is None && datalog::dateable(time::second_of(expires_at)) && tail is None
}

// -- Names -----------------------------------------------------------------------------------------

/// The names of the facts are lower-case names, and no two are the same.
pub proof fn lemma_names()
    ensures
        datalog::is_name("vc_id"@),
        datalog::is_name("issuer"@),
        datalog::is_name("subject"@),
        datalog::is_name("max_depth"@),
        datalog::is_name("budget"@),
        datalog::is_name("max_action_cost"@),
        datalog::is_name("root_tool"@),
        datalog::is_name("principal"@),
        datalog::is_name("root_resource"@),
        datalog::is_name("gate"@),
        datalog::is_name("hop"@),
        datalog::is_name("time"@),
        datalog::is_name("operation"@),
        datalog::is_name("resource"@),
        datalog::is_name("action_cost"@),
        datalog::is_name("acting_for"@),
        "vc_id"@.len() == 5,
        "issuer"@.len() == 6,
        "subject"@.len() == 7,
        "max_depth"@.len() == 9,
        "budget"@.len() == 6,
        "max_action_cost"@.len() == 15,
        "root_tool"@.len() == 9,
        "principal"@.len() == 9,
        "root_resource"@.len() == 13,
        "gate"@.len() == 4,
        "hop"@.len() == 3,
        "time"@.len() == 4,
        "operation"@.len() == 9,
        "resource"@.len() == 8,
        "action_cost"@.len() == 11,
        "acting_for"@.len() == 10,
        "issuer"@[0] == 'i',
        "budget"@[0] == 'b',
        "max_depth"@[0] == 'm',
        "root_tool"@[0] == 'r',
        "principal"@[0] == 'p',
        "operation"@[0] == 'o',
        "gate"@[0] == 'g',
        "time"@[0] == 't',
{
    reveal_strlit("vc_id");
    reveal_strlit("issuer");
    reveal_strlit("subject");
    reveal_strlit("max_depth");
    reveal_strlit("budget");
    reveal_strlit("max_action_cost");
    reveal_strlit("root_tool");
    reveal_strlit("principal");
    reveal_strlit("root_resource");
    reveal_strlit("gate");
    reveal_strlit("hop");
    reveal_strlit("time");
    reveal_strlit("operation");
    reveal_strlit("resource");
    reveal_strlit("action_cost");
    reveal_strlit("acting_for");
}

// -- Texts -----------------------------------------------------------------------------------------

/// The texts of facts.
pub open spec fn fact_texts(f: Seq<FactView>) -> Seq<Seq<char>> {
    f.map_values(|x: FactView| datalog::fact_text(x))
}

/// The texts of checks.
pub open spec fn check_texts(c: Seq<CheckView>) -> Seq<Seq<char>> {
    c.map_values(|x: CheckView| datalog::check_text(x))
}

/// Whether every fact of a list can be written.
pub open spec fn facts_writable(f: Seq<FactView>) -> bool {
    forall|i: int| 0 <= i < f.len() ==> datalog::writable_fact(#[trigger] f[i])
}

/// Whether every check of a list can be written.
pub open spec fn checks_writable(c: Seq<CheckView>) -> bool {
    forall|i: int| 0 <= i < c.len() ==> datalog::writable_check(#[trigger] c[i])
}

/// The texts of a block's facts and checks.
pub struct BlockPlan {
    /// The facts, in order.
    pub facts: Vec<String>,
    /// The checks, in order.
    pub checks: Vec<String>,
}

impl BlockPlan {
    /// Whether the texts are those of `facts` and `checks`.
    pub open spec fn writes(&self, facts: Seq<FactView>, checks: Seq<CheckView>) -> bool {
        text::views(self.facts@) == fact_texts(facts) && text::views(self.checks@) == check_texts(
            checks,
        )
    }
}

fn put(out: &mut Vec<String>, s: String)
    ensures
        text::views(final(out)@) == text::views(old(out)@).push(s@),
{
    let ghost before = text::views(out@);
    let ghost t = s@;
    out.push(s);
    assert(text::views(out@) =~= before.push(t));
}

fn put_number(out: &mut Vec<String>, name: &str, n: Option<u32>)
    ensures
        text::views(final(out)@) == text::views(old(out)@) + fact_texts(opt_int_fact(name@, n)),
{
    let ghost before = text::views(out@);
    if let Some(x) = n {
        put(out, datalog::number_fact(name, x));
    }
    assert(text::views(out@) =~= before + fact_texts(opt_int_fact(name@, n)));
}

fn put_string(out: &mut Vec<String>, name: &str, value: &str) -> (r: Result<(), AgentCredsError>)
    ensures
        match r {
            Ok(_) => datalog::safe_text(value@) && text::views(final(out)@) == text::views(
                old(out)@,
            ) + fact_texts(seq![datalog::str_fact(name@, value@)]),
            Err(e) => !datalog::safe_text(value@) && e@ == datalog::unsafe_text(value@),
        },
{
    let ghost before = text::views(out@);
    match datalog::string_fact(name, value) {
        Ok(s) => {
            put(out, s);
            assert(text::views(out@) =~= before + fact_texts(
                seq![datalog::str_fact(name@, value@)],
            ));
            Ok(())
        },
        Err(e) => Err(e),
    }
}

fn put_strings(out: &mut Vec<String>, name: &str, v: &Vec<String>) -> (r: Result<
    (),
    AgentCredsError,
>)
    ensures
        match r {
            Ok(_) => datalog::first_unsafe(text::views(v@)) is None && datalog::all_safe(
                text::views(v@),
            ) && text::views(final(out)@) == text::views(old(out)@) + fact_texts(
                str_facts(name@, text::views(v@)),
            ),
            Err(e) => datalog::first_unsafe(text::views(v@)) is Some && e@ == datalog::unsafe_text(
                datalog::first_unsafe(text::views(v@))->0,
            ),
        },
{
    let ghost before = text::views(out@);
    let ghost all = text::views(v@);
    assert(all.skip(0) =~= all);
    assert(before =~= before + fact_texts(str_facts(name@, all.take(0))));
    for i in 0..v.len()
        invariant
            all == text::views(v@),
            datalog::first_unsafe(all) == datalog::first_unsafe(all.skip(i as int)),
            datalog::all_safe(all.take(i as int)),
            text::views(out@) == before + fact_texts(str_facts(name@, all.take(i as int))),
    {
        assert(all[i as int] == v@[i as int]@);
        assert(all.skip(i as int)[0] == all[i as int]);
        assert(all.skip(i as int).skip(1) =~= all.skip(i + 1));
        let ghost so_far = text::views(out@);
        match put_string(out, name, v[i].as_str()) {
            Ok(_) => {},
            Err(e) => {
                return Err(e);
            },
        }
        proof {
            let done = all.take(i as int);
            let next = all.take(i + 1);
            assert(next =~= done.push(all[i as int]));
            assert(str_facts(name@, next) =~= str_facts(name@, done).push(
                datalog::str_fact(name@, all[i as int]),
            ));
            assert(fact_texts(str_facts(name@, next)) =~= fact_texts(str_facts(name@, done))
                + fact_texts(seq![datalog::str_fact(name@, all[i as int])]));
            assert(text::views(out@) =~= before + fact_texts(str_facts(name@, next)));
            assert forall|k: int| 0 <= k < next.len() implies datalog::safe_text(
                #[trigger] next[k],
            ) by {
                if k < i {
                    assert(done[k] == next[k]);
                }
            }
        }
    }
    assert(all.take(all.len() as int) =~= all);
    assert(all.skip(all.len() as int) =~= Seq::<Seq<char>>::empty());
    Ok(())
}

/// Whether every text of a list of gates may stand in a Datalog string term.
pub open spec fn gates_safe(g: Seq<GateView>) -> bool {
    forall|i: int|
        0 <= i < g.len() ==> datalog::safe_text((#[trigger] g[i]).kind) && datalog::safe_text(
            g[i].tool,
        )
}

fn put_gates(out: &mut Vec<String>, v: &Vec<Gate>) -> (r: Result<(), AgentCredsError>)
    ensures
        match r {
            Ok(_) => first_unsafe_gate(approval::gate_views(v@)) is None && gates_safe(
                approval::gate_views(v@),
            ) && text::views(final(out)@) == text::views(old(out)@) + fact_texts(
                gate_facts(approval::gate_views(v@)),
            ),
            Err(e) => first_unsafe_gate(approval::gate_views(v@)) is Some && e@
                == datalog::unsafe_text(first_unsafe_gate(approval::gate_views(v@))->0),
        },
{
    let ghost before = text::views(out@);
    let ghost all = approval::gate_views(v@);
    assert(all.skip(0) =~= all);
    assert(before =~= before + fact_texts(gate_facts(all.take(0))));
    for i in 0..v.len()
        invariant
            all == approval::gate_views(v@),
            first_unsafe_gate(all) == first_unsafe_gate(all.skip(i as int)),
            gates_safe(all.take(i as int)),
            text::views(out@) == before + fact_texts(gate_facts(all.take(i as int))),
    {
        assert(all[i as int] == v@[i as int]@);
        assert(all.skip(i as int)[0] == all[i as int]);
        assert(all.skip(i as int).skip(1) =~= all.skip(i + 1));
        match datalog::strings_fact("gate", v[i].kind.as_str(), v[i].tool.as_str()) {
            Ok(s) => put(out, s),
            Err(e) => {
                return Err(e);
            },
        }
        proof {
            let done = all.take(i as int);
            let next = all.take(i + 1);
            let f = datalog::pair_fact("gate"@, all[i as int].kind, all[i as int].tool);
            assert(next =~= done.push(all[i as int]));
            assert(gate_facts(next) =~= gate_facts(done).push(f));
            assert(fact_texts(gate_facts(next)) =~= fact_texts(gate_facts(done)).push(
                datalog::fact_text(f),
            ));
            assert(text::views(out@) =~= before + fact_texts(gate_facts(next)));
            assert forall|k: int| 0 <= k < next.len() implies datalog::safe_text(
                (#[trigger] next[k]).kind,
            ) && datalog::safe_text(next[k].tool) by {
                if k < i {
                    assert(done[k] == next[k]);
                }
            }
        }
    }
    assert(all.take(all.len() as int) =~= all);
    assert(all.skip(all.len() as int) =~= Seq::<GateView>::empty());
    Ok(())
}

proof fn lemma_fact_texts_concat(a: Seq<FactView>, b: Seq<FactView>)
    ensures
        fact_texts(a + b) == fact_texts(a) + fact_texts(b),
{
    assert(fact_texts(a + b) =~= fact_texts(a) + fact_texts(b));
}

proof fn lemma_check_texts_concat(a: Seq<CheckView>, b: Seq<CheckView>)
    ensures
        check_texts(a + b) == check_texts(a) + check_texts(b),
{
    assert(check_texts(a + b) =~= check_texts(a) + check_texts(b));
}

/// Adds the check of an expiry, once Biscuit has read it: what stands behind it in the block is
/// not looked at before.
///
/// # Errors
/// `InvalidBiscuitSignature` where Biscuit does not read the expiry's date.
fn put_time_check(out: &mut Vec<String>, expires_at: &Timestamp) -> (r: Result<
    (),
    AgentCredsError,
>)
    ensures
        match r {
            Ok(_) => datalog::dateable(time::second_of(expires_at@)) && text::views(final(out)@)
                == text::views(old(out)@).push(
                datalog::check_text(CheckView::NotAfter(time::second_of(expires_at@))),
            ),
            Err(e) => !datalog::dateable(time::second_of(expires_at@))
                && e@ is InvalidBiscuitSignature,
        },
{
    let check = datalog::time_check(expires_at);
    assert(check@ == datalog::check_text(CheckView::NotAfter(time::second_of(expires_at@))));
    match biscuit::block_check(biscuit::new_block(), check.as_str()) {
        Ok(_) => {},
        Err(e) => {
            return Err(bad_biscuit(e));
        },
    }
    put(out, check);
    Ok(())
}

fn put_base_checks(out: &mut Vec<String>, tools: &Vec<String>, expires_at: &Timestamp) -> (r:
    Result<(), AgentCredsError>)
    ensures
        match r {
            Ok(_) => {
                &&& datalog::first_unsafe(text::views(tools@)) is None
                &&& datalog::dateable(time::second_of(expires_at@))
                &&& text::views(final(out)@) == text::views(old(out)@) + check_texts(
                    seq![
                        CheckView::Operation(text::views(tools@)),
                        CheckView::NotAfter(time::second_of(expires_at@)),
                    ],
                )
            },
            Err(e) => match datalog::first_unsafe(text::views(tools@)) {
                Some(x) => e@ == datalog::unsafe_text(x),
                None => !datalog::dateable(time::second_of(expires_at@))
                    && e@ is InvalidBiscuitSignature,
            },
        },
{
    let ghost before = text::views(out@);
    match datalog::operation_check(tools) {
        Ok(c) => put(out, c),
        Err(e) => {
            return Err(e);
        },
    }
    match put_time_check(out, expires_at) {
        Ok(_) => {},
        Err(e) => {
            return Err(e);
        },
    }
    assert(text::views(out@) =~= before + check_texts(
        seq![
            CheckView::Operation(text::views(tools@)),
            CheckView::NotAfter(time::second_of(expires_at@)),
        ],
    ));
    Ok(())
}

fn put_resources_check(out: &mut Vec<String>, resources: &Vec<String>) -> (r: Result<
    (),
    AgentCredsError,
>)
    requires
        strings::ascending(text::views(resources@)),
    ensures
        match r {
            Ok(_) => datalog::first_unsafe(text::views(resources@)) is None && text::views(
                final(out)@,
            ) == text::views(old(out)@) + check_texts(
                resources_check(text::views(resources@).to_set()),
            ),
            Err(e) => datalog::first_unsafe(text::views(resources@)) is Some && e@
                == datalog::unsafe_text(datalog::first_unsafe(text::views(resources@))->0),
        },
{
    let ghost before = text::views(out@);
    proof {
        strings::lemma_listing(text::views(resources@));
    }
    if resources.len() > 0 {
        match datalog::resource_check(resources) {
            Ok(c) => put(out, c),
            Err(e) => {
                return Err(e);
            },
        }
    }
    assert(text::views(out@) =~= before + check_texts(
        resources_check(text::views(resources@).to_set()),
    ));
    Ok(())
}

fn put_cap_check(out: &mut Vec<String>, cap: Option<u32>)
    ensures
        text::views(final(out)@) == text::views(old(out)@) + check_texts(cap_check(cap)),
{
    let ghost before = text::views(out@);
    if let Some(n) = cap {
        put(out, datalog::cost_check(n));
    }
    assert(text::views(out@) =~= before + check_texts(cap_check(cap)));
}

/// The texts of the authority block of a token for a scope of a credential.
///
/// # Errors
/// In the order of the block: `OutOfBounds` for the first text that may not stand in a string
/// term, `InvalidBiscuitSignature` for an expiry that has no Datalog date.
pub fn authority_plan(vc: &CapabilityCredential, scope: &Scope, expires_at: &Timestamp) -> (r:
    Result<BlockPlan, AgentCredsError>)
    ensures
        match r {
            Ok(p) => {
                &&& writable(
                    mint_head_unsafe(vc@, scope@),
                    expires_at@,
                    mint_tail_unsafe(vc@, scope@),
                )
                &&& p.writes(mint_facts(vc@, scope@), mint_checks(vc@, scope@, expires_at@))
            },
            Err(e) => unwritable(
                mint_head_unsafe(vc@, scope@),
                expires_at@,
                mint_tail_unsafe(vc@, scope@),
                e@,
            ),
        },
{
    let tools = scope.tools.sorted();
    let resources = scope.resources.sorted();
    let mut facts: Vec<String> = Vec::new();
    let mut checks: Vec<String> = Vec::new();
    let ghost mut fs = Seq::<FactView>::empty();
    let ghost mut cs = Seq::<CheckView>::empty();
    assert(text::views(facts@) =~= fact_texts(fs));
    assert(text::views(checks@) =~= check_texts(cs));
    match put_string(&mut facts, "vc_id", vc.id.as_str()) {
        Ok(_) => {},
        Err(e) => {
            return Err(e);
        },
    }
    match put_string(&mut facts, "issuer", vc.issuer.as_str()) {
        Ok(_) => {},
        Err(e) => {
            return Err(e);
        },
    }
    match put_string(&mut facts, "subject", vc.subject.as_str()) {
        Ok(_) => {},
        Err(e) => {
            return Err(e);
        },
    }
    put(&mut facts, datalog::number_fact("max_depth", scope.max_depth));
    proof {
        fs = seq![
            datalog::str_fact("vc_id"@, vc@.id),
            datalog::str_fact("issuer"@, vc@.issuer),
            datalog::str_fact("subject"@, vc@.subject),
            datalog::int_fact("max_depth"@, scope.max_depth as int),
        ];
        assert(text::views(facts@) =~= fact_texts(fs));
    }
    put_number(&mut facts, "budget", scope.budget_usd);
    proof {
        let more = opt_int_fact("budget"@, scope.budget_usd);
        lemma_fact_texts_concat(fs, more);
        fs = fs + more;
    }
    put_number(&mut facts, "max_action_cost", scope.max_action_cost);
    proof {
        let more = opt_int_fact("max_action_cost"@, scope.max_action_cost);
        lemma_fact_texts_concat(fs, more);
        fs = fs + more;
    }
    put_cap_check(&mut checks, scope.max_action_cost);
    proof {
        let more = cap_check(scope.max_action_cost);
        cs = more;
        assert(text::views(checks@) =~= check_texts(cs));
    }
    match put_strings(&mut facts, "root_tool", &tools) {
        Ok(_) => {},
        Err(e) => {
            return Err(e);
        },
    }
    proof {
        let more = str_facts("root_tool"@, strings::listing(scope@.tools));
        lemma_fact_texts_concat(fs, more);
        fs = fs + more;
    }
    match put_base_checks(&mut checks, &tools, expires_at) {
        Ok(_) => {},
        Err(e) => {
            return Err(e);
        },
    }
    proof {
        let more = base_checks(scope@, expires_at@);
        lemma_check_texts_concat(cs, more);
        cs = cs + more;
    }
    let ghost facts_before = text::views(facts@);
    let ghost checks_before = text::views(checks@);
    match &vc.claims.on_behalf_of {
        Some(obo) => {
            match put_string(&mut facts, "principal", obo.principal_did.as_str()) {
                Ok(_) => {},
                Err(e) => {
                    return Err(e);
                },
            }
            put(&mut checks, "check if acting_for($p), principal($p)".to_owned());
        },
        None => {},
    }
    proof {
        let more = principal_fact(vc@);
        let also = principal_check(vc@);
        lemma_fact_texts_concat(fs, more);
        lemma_check_texts_concat(cs, also);
        assert(text::views(facts@) =~= facts_before + fact_texts(more));
        assert(text::views(checks@) =~= checks_before + check_texts(also));
        fs = fs + more;
        cs = cs + also;
    }
    match put_strings(&mut facts, "root_resource", &resources) {
        Ok(_) => {},
        Err(e) => {
            return Err(e);
        },
    }
    proof {
        let more = str_facts("root_resource"@, strings::listing(scope@.resources));
        lemma_fact_texts_concat(fs, more);
        fs = fs + more;
    }
    match put_resources_check(&mut checks, &resources) {
        Ok(_) => {},
        Err(e) => {
            return Err(e);
        },
    }
    proof {
        let more = resources_check(scope@.resources);
        lemma_check_texts_concat(cs, more);
        cs = cs + more;
    }
    match put_gates(&mut facts, &scope.gates) {
        Ok(_) => {},
        Err(e) => {
            return Err(e);
        },
    }
    proof {
        let more = gate_facts(scope@.gates);
        lemma_fact_texts_concat(fs, more);
        fs = fs + more;
    }
    match put_gates(&mut facts, &vc.claims.required_gates) {
        Ok(_) => {},
        Err(e) => {
            return Err(e);
        },
    }
    proof {
        let more = gate_facts(vc@.claims.required_gates);
        lemma_fact_texts_concat(fs, more);
        fs = fs + more;
    }
    Ok(BlockPlan { facts, checks })
}

/// The texts of the block of a hop to an agent.
///
/// # Errors
/// In the order of the block: `OutOfBounds` for the first text that may not stand in a string
/// term, `InvalidBiscuitSignature` for an expiry that has no Datalog date.
pub fn hop_plan(agent_did: &str, narrow: &Scope, expires_at: &Timestamp) -> (r: Result<
    BlockPlan,
    AgentCredsError,
>)
    ensures
        match r {
            Ok(p) => {
                &&& writable(
                    hop_head_unsafe(agent_did@, narrow@),
                    expires_at@,
                    hop_tail_unsafe(narrow@),
                )
                &&& p.writes(hop_facts(agent_did@, narrow@), hop_checks(narrow@, expires_at@))
            },
            Err(e) => unwritable(
                hop_head_unsafe(agent_did@, narrow@),
                expires_at@,
                hop_tail_unsafe(narrow@),
                e@,
            ),
        },
{
    let tools = narrow.tools.sorted();
    let resources = narrow.resources.sorted();
    let mut facts: Vec<String> = Vec::new();
    let mut checks: Vec<String> = Vec::new();
    match put_string(&mut facts, "hop", agent_did) {
        Ok(_) => {},
        Err(e) => {
            return Err(e);
        },
    }
    let ghost mut fs = seq![datalog::str_fact("hop"@, agent_did@)];
    assert(text::views(facts@) =~= fact_texts(fs));
    match put_base_checks(&mut checks, &tools, expires_at) {
        Ok(_) => {},
        Err(e) => {
            return Err(e);
        },
    }
    let ghost mut cs = base_checks(narrow@, expires_at@);
    assert(text::views(checks@) =~= check_texts(cs));
    match put_resources_check(&mut checks, &resources) {
        Ok(_) => {},
        Err(e) => {
            return Err(e);
        },
    }
    proof {
        let more = resources_check(narrow@.resources);
        lemma_check_texts_concat(cs, more);
        cs = cs + more;
    }
    put_number(&mut facts, "max_action_cost", narrow.max_action_cost);
    put_cap_check(&mut checks, narrow.max_action_cost);
    proof {
        let more = opt_int_fact("max_action_cost"@, narrow.max_action_cost);
        lemma_fact_texts_concat(fs, more);
        fs = fs + more;
        let also = cap_check(narrow.max_action_cost);
        lemma_check_texts_concat(cs, also);
        cs = cs + also;
    }
    match put_gates(&mut facts, &narrow.gates) {
        Ok(_) => {},
        Err(e) => {
            return Err(e);
        },
    }
    proof {
        let more = gate_facts(narrow@.gates);
        lemma_fact_texts_concat(fs, more);
        fs = fs + more;
    }
    Ok(BlockPlan { facts, checks })
}

// -- Writability -------------------------------------------------------------------------------------

proof fn lemma_first_unsafe_none(v: Seq<Seq<char>>)
    requires
        datalog::first_unsafe(v) is None,
    ensures
        datalog::all_safe(v),
    decreases v.len(),
{
    if v.len() > 0 {
        lemma_first_unsafe_none(v.skip(1));
        assert forall|i: int| 0 <= i < v.len() implies datalog::safe_text(#[trigger] v[i]) by {
            if i > 0 {
                assert(v.skip(1)[i - 1] == v[i]);
            }
        }
    }
}

proof fn lemma_first_unsafe_gate_none(g: Seq<GateView>)
    requires
        first_unsafe_gate(g) is None,
    ensures
        gates_safe(g),
    decreases g.len(),
{
    if g.len() > 0 {
        lemma_first_unsafe_gate_none(g.skip(1));
        assert forall|i: int| 0 <= i < g.len() implies datalog::safe_text((#[trigger] g[i]).kind)
            && datalog::safe_text(g[i].tool) by {
            if i > 0 {
                assert(g.skip(1)[i - 1] == g[i]);
            }
        }
    }
}

proof fn lemma_str_facts_writable(name: Seq<char>, v: Seq<Seq<char>>)
    requires
        datalog::is_name(name),
        datalog::all_safe(v),
    ensures
        facts_writable(str_facts(name, v)),
{
    let f = str_facts(name, v);
    assert forall|i: int| 0 <= i < f.len() implies datalog::writable_fact(#[trigger] f[i]) by {
        assert(f[i] == datalog::str_fact(name, v[i]));
        assert(datalog::safe_text(v[i]));
    }
}

proof fn lemma_gate_facts_writable(g: Seq<GateView>)
    requires
        gates_safe(g),
    ensures
        facts_writable(gate_facts(g)),
{
    lemma_names();
    let f = gate_facts(g);
    assert forall|i: int| 0 <= i < f.len() implies datalog::writable_fact(#[trigger] f[i]) by {
        assert(f[i] == datalog::pair_fact("gate"@, g[i].kind, g[i].tool));
        assert(datalog::safe_text(g[i].kind));
    }
}

/// The facts and checks of an authority block without an unsafe text, whose expiry has a
/// Datalog date, can be written.
pub proof fn lemma_mint_writable(c: CredentialView, s: ScopeView, expires_at: int)
    requires
        writable(mint_head_unsafe(c, s), expires_at, mint_tail_unsafe(c, s)),
    ensures
        facts_writable(mint_facts(c, s)),
        checks_writable(mint_checks(c, s, expires_at)),
{
    lemma_names();
    lemma_first_unsafe_none(strings::listing(s.tools));
    lemma_first_unsafe_none(strings::listing(s.resources));
    lemma_first_unsafe_gate_none(s.gates);
    lemma_first_unsafe_gate_none(c.claims.required_gates);
    lemma_str_facts_writable("root_tool"@, strings::listing(s.tools));
    lemma_str_facts_writable("root_resource"@, strings::listing(s.resources));
    lemma_gate_facts_writable(s.gates);
    lemma_gate_facts_writable(c.claims.required_gates);
    let head = seq![
        datalog::str_fact("vc_id"@, c.id),
        datalog::str_fact("issuer"@, c.issuer),
        datalog::str_fact("subject"@, c.subject),
        datalog::int_fact("max_depth"@, s.max_depth as int),
    ];
    assert(facts_writable(head));
    assert(facts_writable(opt_int_fact("budget"@, s.budget_usd)));
    assert(facts_writable(opt_int_fact("max_action_cost"@, s.max_action_cost)));
    assert(facts_writable(principal_fact(c)));
}

/// The facts and checks of a hop's block without an unsafe text, whose expiry has a Datalog
/// date, can be written.
pub proof fn lemma_hop_writable(agent_did: Seq<char>, s: ScopeView, expires_at: int)
    requires
        writable(hop_head_unsafe(agent_did, s), expires_at, hop_tail_unsafe(s)),
    ensures
        facts_writable(hop_facts(agent_did, s)),
        checks_writable(hop_checks(s, expires_at)),
{
    lemma_names();
    lemma_first_unsafe_none(strings::listing(s.tools));
    lemma_first_unsafe_none(strings::listing(s.resources));
    lemma_first_unsafe_gate_none(s.gates);
    lemma_gate_facts_writable(s.gates);
    assert(facts_writable(seq![datalog::str_fact("hop"@, agent_did)]));
    assert(facts_writable(opt_int_fact("max_action_cost"@, s.max_action_cost)));
}

// -- Writing -----------------------------------------------------------------------------------------

/// A Biscuit failure with a reason.
pub fn bad_biscuit(reason: String) -> (r: AgentCredsError)
    ensures
        r@ == broken(reason@),
{
    AgentCredsError::InvalidBiscuitSignature { reason }
}

/// The view of a Biscuit failure with a reason.
pub open spec fn broken(reason: Seq<char>) -> ErrorView {
    ErrorView::InvalidBiscuitSignature { reason }
}

/// The bytes of a token of one block, signed with `secret`.
///
/// # Errors
/// `InvalidBiscuitSignature` where Biscuit fails.
pub(crate) fn write_authority(
    plan: &BlockPlan,
    secret: &[u8],
    Ghost(facts): Ghost<Seq<FactView>>,
    Ghost(checks): Ghost<Seq<CheckView>>,
) -> (r: Result<Vec<u8>, AgentCredsError>)
    requires
        secret@.len() == 32,
        plan.writes(facts, checks),
        facts_writable(facts),
        checks_writable(checks),
    ensures
        r is Ok ==> biscuit::token_decoded(r->Ok_0@, crypto::ed25519_public(secret@)) == Ok::<
            Seq<BlockView>,
            Seq<char>,
        >(seq![BlockView { facts, checks, plain: true, signer: None }]),
        r is Ok ==> !biscuit::bytes_sealed(r->Ok_0@),
        r is Err ==> r->Err_0@ is InvalidBiscuitSignature,
{
    let mut b = biscuit::new_token();
    assert(facts.take(0) =~= Seq::<FactView>::empty());
    assert(checks.take(0) =~= Seq::<CheckView>::empty());
    for i in 0..plan.facts.len()
        invariant
            plan.writes(facts, checks),
            facts_writable(facts),
            biscuit::builder_block(b) == (BlockView {
                facts: facts.take(i as int),
                checks: Seq::<CheckView>::empty(),
                plain: true,
                signer: None,
            }),
    {
        assert(text::views(plan.facts@).len() == fact_texts(facts).len());
        assert(text::views(plan.facts@)[i as int] == plan.facts@[i as int]@);
        assert(fact_texts(facts)[i as int] == datalog::fact_text(facts[i as int]));
        assert(facts.take(i + 1) =~= facts.take(i as int).push(facts[i as int]));
        b = match biscuit::token_fact(b, plan.facts[i].as_str()) {
            Ok(x) => x,
            Err(e) => {
                return Err(bad_biscuit(e));
            },
        };
    }
    assert(text::views(plan.facts@).len() == fact_texts(facts).len());
    assert(facts.take(facts.len() as int) =~= facts);
    for i in 0..plan.checks.len()
        invariant
            plan.writes(facts, checks),
            checks_writable(checks),
            biscuit::builder_block(b) == (BlockView {
                facts,
                checks: checks.take(i as int),
                plain: true,
                signer: None,
            }),
    {
        assert(text::views(plan.checks@).len() == check_texts(checks).len());
        assert(text::views(plan.checks@)[i as int] == plan.checks@[i as int]@);
        assert(check_texts(checks)[i as int] == datalog::check_text(checks[i as int]));
        assert(checks.take(i + 1) =~= checks.take(i as int).push(checks[i as int]));
        b = match biscuit::token_check(b, plan.checks[i].as_str()) {
            Ok(x) => x,
            Err(e) => {
                return Err(bad_biscuit(e));
            },
        };
    }
    assert(text::views(plan.checks@).len() == check_texts(checks).len());
    assert(checks.take(checks.len() as int) =~= checks);
    let token = match biscuit::build_token(b, secret) {
        Ok(t) => t,
        Err(e) => {
            return Err(bad_biscuit(e));
        },
    };
    match biscuit::token_bytes(&token) {
        Ok(v) => Ok(v),
        Err(e) => Err(bad_biscuit(e)),
    }
}

/// The bytes of `parent` with one more block, signed with `secret` on a request of `parent`.
///
/// # Errors
/// `InvalidBiscuitSignature` where Biscuit fails.
pub(crate) fn write_hop(
    parent: &biscuit_auth::Biscuit,
    request: biscuit_auth::ThirdPartyRequest,
    plan: &BlockPlan,
    secret: &[u8],
    public: &[u8],
    Ghost(facts): Ghost<Seq<FactView>>,
    Ghost(checks): Ghost<Seq<CheckView>>,
) -> (r: Result<Vec<u8>, AgentCredsError>)
    requires
        secret@.len() == 32,
        public@ == crypto::ed25519_public(secret@),
        plan.writes(facts, checks),
        facts_writable(facts),
        checks_writable(checks),
    ensures
        r is Ok ==> biscuit::token_decoded(r->Ok_0@, biscuit::token_root(*parent)) == Ok::<
            Seq<BlockView>,
            Seq<char>,
        >(
            biscuit::token_blocks(*parent).push(
                BlockView { facts, checks, plain: true, signer: Some(public@) },
            ),
        ),
        r is Ok ==> !biscuit::bytes_sealed(r->Ok_0@),
        r is Err ==> r->Err_0@ is InvalidBiscuitSignature,
{
    let mut b = biscuit::new_block();
    assert(facts.take(0) =~= Seq::<FactView>::empty());
    assert(checks.take(0) =~= Seq::<CheckView>::empty());
    for i in 0..plan.facts.len()
        invariant
            plan.writes(facts, checks),
            facts_writable(facts),
            biscuit::block_content(b) == (BlockView {
                facts: facts.take(i as int),
                checks: Seq::<CheckView>::empty(),
                plain: true,
                signer: None,
            }),
    {
        assert(text::views(plan.facts@).len() == fact_texts(facts).len());
        assert(text::views(plan.facts@)[i as int] == plan.facts@[i as int]@);
        assert(fact_texts(facts)[i as int] == datalog::fact_text(facts[i as int]));
        assert(facts.take(i + 1) =~= facts.take(i as int).push(facts[i as int]));
        b = match biscuit::block_fact(b, plan.facts[i].as_str()) {
            Ok(x) => x,
            Err(e) => {
                return Err(bad_biscuit(e));
            },
        };
    }
    assert(text::views(plan.facts@).len() == fact_texts(facts).len());
    assert(facts.take(facts.len() as int) =~= facts);
    for i in 0..plan.checks.len()
        invariant
            plan.writes(facts, checks),
            checks_writable(checks),
            biscuit::block_content(b) == (BlockView {
                facts,
                checks: checks.take(i as int),
                plain: true,
                signer: None,
            }),
    {
        assert(text::views(plan.checks@).len() == check_texts(checks).len());
        assert(text::views(plan.checks@)[i as int] == plan.checks@[i as int]@);
        assert(check_texts(checks)[i as int] == datalog::check_text(checks[i as int]));
        assert(checks.take(i + 1) =~= checks.take(i as int).push(checks[i as int]));
        b = match biscuit::block_check(b, plan.checks[i].as_str()) {
            Ok(x) => x,
            Err(e) => {
                return Err(bad_biscuit(e));
            },
        };
    }
    assert(text::views(plan.checks@).len() == check_texts(checks).len());
    assert(checks.take(checks.len() as int) =~= checks);
    let response = match biscuit::create_block(request, secret, b) {
        Ok(x) => x,
        Err(e) => {
            return Err(bad_biscuit(e));
        },
    };
    let token = match biscuit::append_third_party(parent, public, response) {
        Ok(t) => t,
        Err(e) => {
            return Err(bad_biscuit(e));
        },
    };
    match biscuit::token_bytes(&token) {
        Ok(v) => Ok(v),
        Err(e) => Err(bad_biscuit(e)),
    }
}

/// A list without a first unsafe text is safe throughout, and one that has an unsafe text has a first.
pub proof fn lemma_all_safe(v: Seq<Seq<char>>)
    ensures
        datalog::first_unsafe(v) is None <==> datalog::all_safe(v),
    decreases v.len(),
{
    if v.len() > 0 {
        let t = v.skip(1);
        lemma_all_safe(t);
        if datalog::all_safe(v) {
            assert forall|i: int| 0 <= i < t.len() implies datalog::safe_text(#[trigger] t[i]) by {
                assert(t[i] == v[i + 1]);
            }
        }
        if datalog::first_unsafe(v) is None {
            lemma_first_unsafe_none(v);
        }
    }
}

/// The same for gates.
pub proof fn lemma_gates_safe(g: Seq<GateView>)
    ensures
        first_unsafe_gate(g) is None <==> gates_safe(g),
    decreases g.len(),
{
    if g.len() > 0 {
        let t = g.skip(1);
        lemma_gates_safe(t);
        if gates_safe(g) {
            assert forall|i: int| 0 <= i < t.len() implies datalog::safe_text((#[trigger] t[i]).kind)
                && datalog::safe_text(t[i].tool) by {
                assert(t[i] == g[i + 1]);
            }
        }
        if first_unsafe_gate(g) is None {
            lemma_first_unsafe_gate_none(g);
        }
    }
}

} // verus!
