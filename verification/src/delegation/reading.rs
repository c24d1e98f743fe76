//! Reading a token: what its authority block and its chain say, taken from the signed bytes
//! and never from what travels beside them.

use vstd::prelude::*;
use vstd::string::*;
use crate::approval;
use crate::approval::{Gate, GateView};
use crate::crypto;
use crate::delegation::biscuit;
use crate::delegation::datalog;
use crate::delegation::datalog::{BlockView, FactView};
use crate::delegation::hop::TokenView;
use crate::delegation::plan;
use crate::error::{AgentCredsError, ErrorView};
use crate::strings;
use crate::text;

verus! {

/// The seconds that an evaluation of a token's Datalog may take: a backstop far above what a
/// valid chain needs.
pub const AUTHORIZER_MAX_SECS: u64 = 1;

// -- What was read ------------------------------------------------------------------------------

/// Whether an optional number was read from a set: one of its numbers, or none where it is
/// empty.
pub open spec fn read_number(from: Set<int>, n: Option<u32>) -> bool {
    match n {
        Some(m) => exists|x: i64| from.contains(x as int) && m == #[trigger] low_bits(x),
        None => from =~= Set::<int>::empty(),
    }
}

/// The low 32 bits of a number, which are the number itself where it fits.
pub open spec fn low_bits(x: i64) -> u32 {
    x as u32
}

/// The first of some numbers, in its low 32 bits.
pub open spec fn first_low(rows: Seq<i64>) -> Option<u32> {
    if rows.len() == 0 {
        None
    } else {
        Some(low_bits(rows[0]))
    }
}

/// Whether an optional number is the least of a set, or none where it is empty.
pub open spec fn read_least(from: Set<int>, n: Option<u32>) -> bool {
    &&& read_number(from, n)
    &&& n is Some ==> forall|x: i64| from.contains(x as int) ==> n->0 <= #[trigger] low_bits(x)
}

/// Whether an optional text was read from a set: one of its texts, or none where it is empty.
pub open spec fn read_text(from: Set<Seq<char>>, s: Option<Seq<char>>) -> bool {
    match s {
        Some(x) => from.contains(x),
        None => from =~= Set::<Seq<char>>::empty(),
    }
}

/// Whether a list of gates holds the gates of a set of kinds and tools, in order.
pub open spec fn read_gates(from: Set<(Seq<char>, Seq<char>)>, gates: Seq<GateView>) -> bool {
    &&& approval::gates_ascending(gates)
    &&& forall|g: GateView| #[trigger] gates.contains(g) <==> from.contains((g.kind, g.tool))
}

/// Whether what a token reports was read from the facts of its authority block.
pub open spec fn read_from_authority(t: TokenView, facts: Seq<FactView>) -> bool {
    &&& datalog::strings_in(facts, "vc_id"@).contains(t.vc_id)
    &&& datalog::strings_in(facts, "issuer"@).contains(t.issuer)
    &&& datalog::strings_in(facts, "subject"@).contains(t.subject)
    &&& read_number(datalog::ints_in(facts, "max_depth"@), Some(t.root_max_depth)) || (
    t.root_max_depth == 0 && datalog::ints_in(facts, "max_depth"@) =~= Set::<int>::empty())
    &&& t.root_tools == strings::listing(datalog::strings_in(facts, "root_tool"@))
    &&& t.root_tools.to_set() == datalog::strings_in(facts, "root_tool"@)
    &&& read_number(datalog::ints_in(facts, "budget"@), t.root_budget)
    &&& read_text(datalog::strings_in(facts, "principal"@), t.principal)
    &&& t.root_resources == strings::listing(datalog::strings_in(facts, "root_resource"@))
    &&& t.root_resources.to_set() == datalog::strings_in(facts, "root_resource"@)
}

/// Whether what a token reports was read from its blocks: its cap and gates from all of
/// them, the rest from the authority block.
pub open spec fn read_from(t: TokenView, blocks: Seq<BlockView>) -> bool {
    &&& blocks[0].plain ==> read_from_authority(t, blocks[0].facts)
    &&& datalog::all_plain(blocks) ==> read_least(
        datalog::ints_in(datalog::all_facts(blocks), "max_action_cost"@),
        t.max_action_cost,
    )
    &&& datalog::all_plain(blocks) ==> read_gates(
        datalog::pairs_in(datalog::all_facts(blocks), "gate"@),
        t.gates,
    )
}

/// The blocks of a token.
pub open spec fn contents(t: TokenView) -> Seq<BlockView> {
    biscuit::token_decoded(t.biscuit, t.hops[0].delegation_public)->Ok_0
}

/// Whether a token's bytes decode under its first hop's delegation key, and what it reports
/// was read from them.
pub open spec fn readable(t: TokenView) -> bool {
    &&& t.hops.len() > 0
    &&& biscuit::biscuit_key_decodes(t.hops[0].delegation_public) is Ok
    &&& biscuit::token_decoded(t.biscuit, t.hops[0].delegation_public) is Ok
    &&& contents(t).len() > 0
    &&& read_from(t, contents(t))
}

// -- Keys ---------------------------------------------------------------------------------------

/// The error of a delegation public key that does not decode.
pub open spec fn bad_public(reason: Seq<char>) -> ErrorView {
    ErrorView::InvalidKeyMaterial { reason: "delegation public key invalid: "@ + reason }
}

/// The error of a delegation secret that is no key.
pub open spec fn bad_secret(reason: Seq<char>) -> ErrorView {
    ErrorView::InvalidKeyMaterial { reason: "delegation private key invalid: "@ + reason }
}

/// Checks that bytes are an Ed25519 secret: any 32 of them are.
///
/// # Errors
/// `InvalidKeyMaterial` for any other length.
pub fn check_delegation_secret(secret: &[u8]) -> (r: Result<(), AgentCredsError>)
    ensures
        r is Ok == (secret@.len() == 32),
        r is Err ==> r->Err_0@ == bad_secret(biscuit::biscuit_secret_error(secret@)),
{
    match biscuit::check_secret(secret) {
        Ok(_) => Ok(()),
        Err(e) => {
            let mut reason = "delegation private key invalid: ".to_owned();
            reason.append(e.as_str());
            Err(AgentCredsError::InvalidKeyMaterial { reason })
        },
    }
}

/// Checks that bytes are an Ed25519 public key.
///
/// # Errors
/// `InvalidKeyMaterial` where they are not.
pub fn check_delegation_key(b: &[u8]) -> (r: Result<(), AgentCredsError>)
    ensures
        match r {
            Ok(_) => biscuit::biscuit_key_decodes(b@) is Ok && b@.len() == 32,
            Err(e) => {
                &&& biscuit::biscuit_key_decodes(b@) is Err
                &&& e@ == bad_public(biscuit::biscuit_key_decodes(b@)->Err_0)
                &&& forall|s: Seq<u8>|
                    #![trigger crypto::ed25519_public(s)]
                    s.len() == 32 ==> b@ != crypto::ed25519_public(s)
            },
        },
{
    match biscuit::check_public(b) {
        Ok(_) => Ok(()),
        Err(e) => {
            let mut reason = "delegation public key invalid: ".to_owned();
            reason.append(e.as_str());
            Err(AgentCredsError::InvalidKeyMaterial { reason })
        },
    }
}

/// The token that bytes decode to under a root key.
///
/// # Errors
/// `InvalidKeyMaterial` for a root key that does not decode; `InvalidBiscuitSignature` where
/// the bytes do not decode.
pub(crate) fn decode_token(bytes: &[u8], root: &[u8]) -> (r: Result<
    biscuit_auth::Biscuit,
    AgentCredsError,
>)
    ensures
        match r {
            Ok(t) => {
                &&& biscuit::biscuit_key_decodes(root@) is Ok
                &&& biscuit::token_decoded(bytes@, root@) == Ok::<Seq<BlockView>, Seq<char>>(
                    biscuit::token_blocks(t),
                )
                &&& biscuit::token_root(t) == root@
                &&& biscuit::token_sealed(t) == biscuit::bytes_sealed(bytes@)
                &&& biscuit::token_blocks(t).len() > 0
            },
            Err(e) => decode_error(bytes@, root@) == Some(e@),
        },
{
    match check_delegation_key(root) {
        Ok(_) => {},
        Err(e) => {
            return Err(e);
        },
    }
    match biscuit::parse_token(bytes, root) {
        Ok(t) => Ok(t),
        Err(e) => Err(plan::bad_biscuit(e)),
    }
}

/// The error of decoding bytes under a root key, where they do not decode.
pub open spec fn decode_error(bytes: Seq<u8>, root: Seq<u8>) -> Option<ErrorView> {
    match biscuit::biscuit_key_decodes(root) {
        Err(e) => Some(bad_public(e)),
        Ok(_) => match biscuit::token_decoded(bytes, root) {
            Err(e) => Some(plan::broken(e)),
            Ok(_) => None,
        },
    }
}

// -- Queries ------------------------------------------------------------------------------------

fn rule_of(name: &str) -> (r: String)
    ensures
        r@ == datalog::query_text(name@),
{
    let mut s = "data($x) <- ".to_owned();
    s.append(name);
    s.append("($x)");
    s
}

fn bounded_authorizer(t: &biscuit_auth::Biscuit) -> (r: Result<
    biscuit_auth::Authorizer,
    AgentCredsError,
>)
    ensures
        r is Ok ==> biscuit::authorizer_facts(r->Ok_0) == Seq::<FactView>::empty(),
        r is Ok ==> biscuit::authorizer_blocks(r->Ok_0) == biscuit::token_blocks(*t),
        r is Err ==> r->Err_0@ is InvalidBiscuitSignature,
{
    match biscuit::build_authorizer(biscuit::new_request(AUTHORIZER_MAX_SECS), t) {
        Ok(a) => Ok(a),
        Err(e) => Err(plan::bad_biscuit(e)),
    }
}

fn query_strings(t: &biscuit_auth::Biscuit, name: &str) -> (r: Result<Vec<String>, AgentCredsError>)
    requires
        datalog::is_name(name@),
    ensures
        r is Ok && biscuit::token_blocks(*t)[0].plain ==> text::views(r->Ok_0@).to_set()
            == datalog::strings_in(biscuit::token_blocks(*t)[0].facts, name@),
        r is Err ==> r->Err_0@ is InvalidBiscuitSignature,
{
    let mut a = match bounded_authorizer(t) {
        Ok(a) => a,
        Err(e) => {
            return Err(e);
        },
    };
    let ghost facts = biscuit::token_blocks(*t)[0].facts;
    assert(Seq::<FactView>::empty() + facts =~= facts);
    match biscuit::query_text_rows(&mut a, rule_of(name).as_str()) {
        Ok(v) => Ok(v),
        Err(e) => Err(plan::bad_biscuit(e)),
    }
}

fn query_ints(t: &biscuit_auth::Biscuit, name: &str) -> (r: Result<Vec<i64>, AgentCredsError>)
    requires
        datalog::is_name(name@),
    ensures
        r is Ok && biscuit::token_blocks(*t)[0].plain ==> biscuit::int_views(r->Ok_0@).to_set()
            == datalog::ints_in(biscuit::token_blocks(*t)[0].facts, name@),
        r is Err ==> r->Err_0@ is InvalidBiscuitSignature,
{
    let mut a = match bounded_authorizer(t) {
        Ok(a) => a,
        Err(e) => {
            return Err(e);
        },
    };
    let ghost facts = biscuit::token_blocks(*t)[0].facts;
    assert(Seq::<FactView>::empty() + facts =~= facts);
    match biscuit::query_int_rows(&mut a, rule_of(name).as_str()) {
        Ok(v) => Ok(v),
        Err(e) => Err(plan::bad_biscuit(e)),
    }
}

fn query_chain_ints(t: &biscuit_auth::Biscuit, name: &str) -> (r: Result<Vec<i64>, AgentCredsError>)
    requires
        datalog::is_name(name@),
    ensures
        r is Ok && datalog::all_plain(biscuit::token_blocks(*t)) ==> biscuit::int_views(
            r->Ok_0@,
        ).to_set() == datalog::ints_in(datalog::all_facts(biscuit::token_blocks(*t)), name@),
        r is Err ==> r->Err_0@ is InvalidBiscuitSignature,
{
    let mut a = match bounded_authorizer(t) {
        Ok(a) => a,
        Err(e) => {
            return Err(e);
        },
    };
    let ghost facts = datalog::all_facts(biscuit::token_blocks(*t));
    assert(Seq::<FactView>::empty() + facts =~= facts);
    match biscuit::query_all_int_rows(&mut a, rule_of(name).as_str()) {
        Ok(v) => Ok(v),
        Err(e) => Err(plan::bad_biscuit(e)),
    }
}

fn query_pairs(t: &biscuit_auth::Biscuit) -> (r: Result<Vec<(String, String)>, AgentCredsError>)
    ensures
        r is Ok && datalog::all_plain(biscuit::token_blocks(*t)) ==> biscuit::pair_views(
            r->Ok_0@,
        ).to_set() == datalog::pairs_in(datalog::all_facts(biscuit::token_blocks(*t)), "gate"@),
        r is Err ==> r->Err_0@ is InvalidBiscuitSignature,
{
    let mut a = match bounded_authorizer(t) {
        Ok(a) => a,
        Err(e) => {
            return Err(e);
        },
    };
    let ghost facts = datalog::all_facts(biscuit::token_blocks(*t));
    assert(Seq::<FactView>::empty() + facts =~= facts);
    let mut rule = "data($k, $t) <- ".to_owned();
    rule.append("gate");
    rule.append("($k, $t)");
    proof {
        plan::lemma_names();
    }
    assert(rule@ == datalog::pair_query_text("gate"@));
    match biscuit::query_all_pair_rows(&mut a, rule.as_str()) {
        Ok(v) => Ok(v),
        Err(e) => Err(plan::bad_biscuit(e)),
    }
}

/// The error of a token that lacks a fact.
pub open spec fn missing(name: Seq<char>) -> ErrorView {
    plan::broken("missing required fact: "@ + datalog::query_text(name))
}

/// The first of the texts that a query for a name gave.
///
/// # Errors
/// `InvalidBiscuitSignature` where there is none.
pub fn required(rows: &Vec<String>, name: &str) -> (r: Result<String, AgentCredsError>)
    ensures
        match r {
            Ok(s) => rows@.len() > 0 && s@ == rows@[0]@,
            Err(e) => rows@.len() == 0 && e@ == missing(name@),
        },
{
    if rows.len() == 0 {
        let mut reason = "missing required fact: ".to_owned();
        reason.append(rule_of(name).as_str());
        return Err(plan::bad_biscuit(reason));
    }
    Ok(rows[0].clone())
}

/// The first of the texts that the facts of a name hold.
fn one(t: &biscuit_auth::Biscuit, name: &str) -> (r: Result<String, AgentCredsError>)
    requires
        datalog::is_name(name@),
    ensures
        r is Ok && biscuit::token_blocks(*t)[0].plain ==> datalog::strings_in(
            biscuit::token_blocks(*t)[0].facts,
            name@,
        ).contains(r->Ok_0@),
        r is Err ==> r->Err_0@ is InvalidBiscuitSignature,
{
    let rows = match query_strings(t, name) {
        Ok(v) => v,
        Err(e) => {
            return Err(e);
        },
    };
    proof {
        if rows@.len() > 0 {
            assert(text::views(rows@)[0] == rows@[0]@);
            assert(text::views(rows@).to_set().contains(rows@[0]@));
        }
    }
    required(&rows, name)
}

/// The first of some rows, in its low 32 bits.
fn first_number(rows: &Vec<i64>) -> (r: Option<u32>)
    ensures
        r == first_low(rows@),
{
    if rows.len() == 0 {
        None
    } else {
        Some(#[verifier::truncate] (rows[0] as u32))
    }
}

proof fn lemma_first_of_set(rows: Seq<i64>)
    ensures
        read_number(biscuit::int_views(rows).to_set(), first_low(rows)),
{
    let s = biscuit::int_views(rows);
    if rows.len() == 0 {
        assert(s.to_set() =~= Set::<int>::empty());
    } else {
        assert(s[0] == rows[0] as int);
        assert(s.to_set().contains(rows[0] as int));
        assert(first_low(rows)->0 == low_bits(rows[0]));
    }
}

/// The least of some rows, each in its low 32 bits.
fn least_number(rows: &Vec<i64>) -> (r: Option<u32>)
    ensures
        read_least(biscuit::int_views(rows@).to_set(), r),
{
    let ghost s = biscuit::int_views(rows@);
    let mut least: Option<u32> = None;
    for i in 0..rows.len()
        invariant
            s == biscuit::int_views(rows@),
            i == 0 ==> least is None,
            i > 0 ==> least is Some,
            least is Some ==> exists|j: int|
                0 <= j < i && least->0 == low_bits(#[trigger] rows@[j]),
            least is Some ==> forall|j: int|
                0 <= j < i ==> least->0 <= low_bits(#[trigger] rows@[j]),
    {
        let x = rows[i];
        let m = #[verifier::truncate] (x as u32);
        assert(m == low_bits(rows@[i as int]));
        least = match least {
            Some(n) => if m < n {
                Some(m)
            } else {
                Some(n)
            },
            None => Some(m),
        };
    }
    proof {
        match least {
            Some(n) => {
                let j = choose|j: int| 0 <= j < rows@.len() && n == low_bits(#[trigger] rows@[j]);
                assert(s[j] == rows@[j] as int);
                assert(s.to_set().contains(rows@[j] as int));
                assert forall|x: i64| s.to_set().contains(x as int) implies n <= #[trigger] low_bits(
                    x,
                ) by {
                    let k = choose|k: int| 0 <= k < s.len() && s[k] == x as int;
                    assert(rows@[k] == x);
                }
            },
            None => {
                assert(s.to_set() =~= Set::<int>::empty());
            },
        }
    }
    least
}

/// The gates of some rows of kinds and tools, distinct and in order.
fn gates_of(rows: &Vec<(String, String)>) -> (r: Vec<Gate>)
    ensures
        read_gates(biscuit::pair_views(rows@).to_set(), approval::gate_views(r@)),
{
    let ghost pairs = biscuit::pair_views(rows@);
    let mut raw: Vec<Gate> = Vec::new();
    for i in 0..rows.len()
        invariant
            raw@.len() == i,
            forall|j: int|
                0 <= j < i ==> (#[trigger] raw@[j])@.kind == rows@[j].0@ && raw@[j]@.tool
                    == rows@[j].1@,
    {
        raw.push(Gate { kind: rows[i].0.clone(), tool: rows[i].1.clone() });
    }
    let out = approval::sorted_gates(&raw);
    proof {
        let v = approval::gate_views(raw@);
        assert forall|g: GateView| #[trigger] approval::gate_views(out@).contains(
            g,
        ) <==> pairs.to_set().contains((g.kind, g.tool)) by {
            if v.contains(g) {
                let j = choose|j: int| 0 <= j < v.len() && v[j] == g;
                assert(v[j] == raw@[j]@);
                assert(pairs[j] == (g.kind, g.tool));
            }
            if pairs.contains((g.kind, g.tool)) {
                let j = choose|j: int| 0 <= j < pairs.len() && pairs[j] == (g.kind, g.tool);
                assert(raw@[j]@ == v[j]);
                assert(v[j] == g);
            }
        }
    }
    out
}

/// What was read from a token.
pub struct Reading {
    pub vc_id: String,
    pub issuer: String,
    pub subject: String,
    pub root_tools: Vec<String>,
    pub root_budget: Option<u32>,
    pub max_action_cost: Option<u32>,
    pub root_max_depth: u32,
    pub principal: Option<String>,
    pub root_resources: Vec<String>,
    pub gates: Vec<Gate>,
}

impl Reading {
    /// The view of a token that holds what was read.
    pub open spec fn of(&self, t: TokenView) -> TokenView {
        TokenView {
            vc_id: self.vc_id@,
            issuer: self.issuer@,
            subject: self.subject@,
            root_tools: text::views(self.root_tools@),
            root_budget: self.root_budget,
            max_action_cost: self.max_action_cost,
            root_max_depth: self.root_max_depth,
            principal: text::opt_view(self.principal),
            root_resources: text::views(self.root_resources@),
            gates: approval::gate_views(self.gates@),
            ..t
        }
    }
}

/// What the queries of a token gave.
pub struct Rows {
    pub vc_id: String,
    pub issuer: String,
    pub subject: String,
    pub depths: Vec<i64>,
    pub tools: Vec<String>,
    pub budgets: Vec<i64>,
    pub caps: Vec<i64>,
    pub principals: Vec<String>,
    pub resources: Vec<String>,
    pub gates: Vec<(String, String)>,
}

/// Whether a reading is the one of some rows: the first depth, budget and principal, the least
/// cap, and the tools, resources and gates distinct and in order.
pub open spec fn rows_read(q: Rows, x: Reading) -> bool {
    &&& x.vc_id@ == q.vc_id@
    &&& x.issuer@ == q.issuer@
    &&& x.subject@ == q.subject@
    &&& x.root_max_depth == (match first_low(q.depths@) {
        Some(n) => n,
        None => 0,
    })
    &&& text::views(x.root_tools@) == strings::listing(text::views(q.tools@).to_set())
    &&& text::views(x.root_tools@).to_set() == text::views(q.tools@).to_set()
    &&& x.root_budget == first_low(q.budgets@)
    &&& read_least(biscuit::int_views(q.caps@).to_set(), x.max_action_cost)
    &&& text::opt_view(x.principal) == (if q.principals@.len() == 0 {
        None
    } else {
        Some(q.principals@[0]@)
    })
    &&& text::views(x.root_resources@) == strings::listing(text::views(q.resources@).to_set())
    &&& text::views(x.root_resources@).to_set() == text::views(q.resources@).to_set()
    &&& read_gates(biscuit::pair_views(q.gates@).to_set(), approval::gate_views(x.gates@))
}

/// The reading of some rows.
pub fn read_rows(q: Rows) -> (x: Reading)
    ensures
        rows_read(q, x),
{
    Reading {
        root_max_depth: match first_number(&q.depths) {
            Some(n) => n,
            None => 0,
        },
        root_tools: strings::sorted_distinct(&q.tools),
        root_budget: first_number(&q.budgets),
        max_action_cost: least_number(&q.caps),
        principal: if q.principals.len() == 0 {
            None
        } else {
            Some(q.principals[0].clone())
        },
        root_resources: strings::sorted_distinct(&q.resources),
        gates: gates_of(&q.gates),
        vc_id: q.vc_id,
        issuer: q.issuer,
        subject: q.subject,
    }
}

/// Reads a token.
///
/// # Errors
/// `InvalidBiscuitSignature` where a required fact is missing or the evaluation fails.
pub(crate) fn read_blocks(t: &biscuit_auth::Biscuit) -> (r: Result<Reading, AgentCredsError>)
    ensures
        r is Ok ==> forall|v: TokenView|
            read_from(#[trigger] r->Ok_0.of(v), biscuit::token_blocks(*t)),
        r is Err ==> r->Err_0@ is InvalidBiscuitSignature,
{
    proof {
        plan::lemma_names();
    }
    let vc_id = match one(t, "vc_id") {
        Ok(x) => x,
        Err(e) => {
            return Err(e);
        },
    };
    let issuer = match one(t, "issuer") {
        Ok(x) => x,
        Err(e) => {
            return Err(e);
        },
    };
    let subject = match one(t, "subject") {
        Ok(x) => x,
        Err(e) => {
            return Err(e);
        },
    };
    let depths = match query_ints(t, "max_depth") {
        Ok(x) => x,
        Err(e) => {
            return Err(e);
        },
    };
    let tools = match query_strings(t, "root_tool") {
        Ok(x) => x,
        Err(e) => {
            return Err(e);
        },
    };
    let budgets = match query_ints(t, "budget") {
        Ok(x) => x,
        Err(e) => {
            return Err(e);
        },
    };
    let caps = match query_chain_ints(t, "max_action_cost") {
        Ok(x) => x,
        Err(e) => {
            return Err(e);
        },
    };
    let principals = match query_strings(t, "principal") {
        Ok(x) => x,
        Err(e) => {
            return Err(e);
        },
    };
    let resources = match query_strings(t, "root_resource") {
        Ok(x) => x,
        Err(e) => {
            return Err(e);
        },
    };
    let gates = match query_pairs(t) {
        Ok(x) => x,
        Err(e) => {
            return Err(e);
        },
    };
    proof {
        lemma_first_of_set(depths@);
        lemma_first_of_set(budgets@);
        if principals@.len() == 0 {
            assert(text::views(principals@).to_set() =~= Set::<Seq<char>>::empty());
        } else {
            assert(text::views(principals@)[0] == principals@[0]@);
            assert(text::views(principals@).to_set().contains(principals@[0]@));
        }
    }
    Ok(
        read_rows(
            Rows {
                vc_id,
                issuer,
                subject,
                depths,
                tools,
                budgets,
                caps,
                principals,
                resources,
                gates,
            },
        ),
    )
}

/// What is read from a token's rows is what they say: the credential, the issuer and the subject, the
/// first depth bound or none, the first budget, the principal where there is one, the tools and the
/// resources each once, and the tightest cap of all.
pub proof fn a_reading_says_what_the_rows_say(q: Rows, x: Reading, t: Seq<char>, g: GateView)
    requires
        rows_read(q, x),
    ensures
        x.vc_id@ == q.vc_id@,
        x.issuer@ == q.issuer@,
        x.subject@ == q.subject@,
        q.depths@.len() == 0 ==> x.root_max_depth == 0,
        q.depths@.len() > 0 && 0 <= q.depths@[0] <= u32::MAX ==> x.root_max_depth == q.depths@[0],
        q.budgets@.len() == 0 ==> x.root_budget is None,
        q.budgets@.len() > 0 && 0 <= q.budgets@[0] <= u32::MAX ==> x.root_budget == Some(
            q.budgets@[0] as u32,
        ),
        q.principals@.len() == 0 ==> x.principal is None,
        q.principals@.len() > 0 ==> x.principal is Some && x.principal->0@ == q.principals@[0]@,
        text::views(x.root_tools@).contains(t) <==> text::views(q.tools@).contains(t),
        text::views(x.root_resources@).contains(t) <==> text::views(q.resources@).contains(t),
        q.caps@.len() == 0 ==> x.max_action_cost is None,
        forall|i: int|
            0 <= i < q.caps@.len() && 0 <= #[trigger] q.caps@[i] <= u32::MAX
                ==> x.max_action_cost is Some && x.max_action_cost->0 <= q.caps@[i],
        approval::gate_views(x.gates@).contains(g) <==> biscuit::pair_views(q.gates@).contains(
            (g.kind, g.tool),
        ),
{
    let caps = biscuit::int_views(q.caps@);
    let (a, b) = (text::views(x.root_tools@), text::views(q.tools@));
    assert(a.contains(t) == a.to_set().contains(t));
    assert(b.contains(t) == b.to_set().contains(t));
    let (c, d) = (text::views(x.root_resources@), text::views(q.resources@));
    assert(c.contains(t) == c.to_set().contains(t));
    assert(d.contains(t) == d.to_set().contains(t));
    let pairs = biscuit::pair_views(q.gates@);
    assert(pairs.contains((g.kind, g.tool)) == pairs.to_set().contains((g.kind, g.tool)));
    if q.caps@.len() == 0 {
        if x.max_action_cost is Some {
            let n = choose|n: i64|
                caps.to_set().contains(n as int) && x.max_action_cost->0 == #[trigger] low_bits(n);
            assert(caps.contains(n as int));
        }
    }
    assert forall|i: int|
        0 <= i < q.caps@.len() && 0 <= #[trigger] q.caps@[i] <= u32::MAX implies x.max_action_cost is Some
        && x.max_action_cost->0 <= q.caps@[i] by {
        assert(caps[i] == q.caps@[i] as int);
        assert(caps.to_set().contains(q.caps@[i] as int));
        assert(low_bits(q.caps@[i]) == q.caps@[i]);
    }
}

} // verus!
