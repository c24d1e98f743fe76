//! The Datalog a token is made of: facts and checks as values, the texts they are written
//! as, and what it means for a check to hold.

use vstd::prelude::*;
use vstd::string::*;
use crate::error::{AgentCredsError, ErrorView};
use crate::text;
use crate::time;
use crate::time::Timestamp;

verus! {

// -- Facts --------------------------------------------------------------------------------

/// A term of a fact.
#[verifier::ext_equal]
pub enum TermView {
    /// A string.
    Str(Seq<char>),
    /// An integer.
    Int(int),
    /// A date, as seconds since the start of 1970.
    Date(int),
    /// A term of any other kind.
    Other,
}

/// A fact: a name and its terms.
#[verifier::ext_equal]
pub struct FactView {
    pub name: Seq<char>,
    pub terms: Seq<TermView>,
}

/// A fact with one term.
pub open spec fn one_fact(name: Seq<char>, t: TermView) -> FactView {
    FactView { name, terms: seq![t] }
}

/// A fact with one string term.
pub open spec fn str_fact(name: Seq<char>, s: Seq<char>) -> FactView {
    FactView { name, terms: seq![TermView::Str(s)] }
}

/// A fact with one integer term.
pub open spec fn int_fact(name: Seq<char>, n: int) -> FactView {
    FactView { name, terms: seq![TermView::Int(n)] }
}

/// A fact with one date term.
pub open spec fn date_fact(name: Seq<char>, second: int) -> FactView {
    FactView { name, terms: seq![TermView::Date(second)] }
}

/// A fact with two string terms.
pub open spec fn pair_fact(name: Seq<char>, a: Seq<char>, b: Seq<char>) -> FactView {
    FactView { name, terms: seq![TermView::Str(a), TermView::Str(b)] }
}

/// Whether a text can stand between double quotes as it is.
pub open spec fn quotable(s: Seq<char>) -> bool {
    !s.contains('"') && !s.contains('\\')
}

/// Whether a second has a four-digit year and is not before 1970.
pub open spec fn dateable(second: int) -> bool {
    0 <= second <= 253402300799
}

/// Whether a second is one of the representable ones whose date Datalog does not read: before
/// 1970, or with a year of more than four digits.
pub open spec fn undated(second: int) -> bool {
    time::MIN_SECS <= second <= time::MAX_SECS && !dateable(second)
}

/// Whether a term can be written.
pub open spec fn writable_term(t: TermView) -> bool {
    match t {
        TermView::Str(s) => quotable(s),
        TermView::Int(n) => 0 <= n <= i64::MAX,
        TermView::Date(d) => dateable(d),
        TermView::Other => false,
    }
}

/// Whether a text is a lower-case name.
pub open spec fn is_name(s: Seq<char>) -> bool {
    s.len() > 0 && forall|i: int|
        0 <= i < s.len() ==> ('a' <= #[trigger] s[i] <= 'z' || s[i] == '_')
}

/// Whether a fact can be written: a name and one or two terms.
pub open spec fn writable_fact(f: FactView) -> bool {
    &&& is_name(f.name)
    &&& 1 <= f.terms.len() <= 2
    &&& forall|i: int| 0 <= i < f.terms.len() ==> writable_term(#[trigger] f.terms[i])
}

/// The text of a string term.
pub open spec fn quoted_term(s: Seq<char>) -> Seq<char> {
    "\""@ + s + "\""@
}

/// The text of a term.
pub open spec fn term_text(t: TermView) -> Seq<char> {
    match t {
        TermView::Str(s) => quoted_term(s),
        TermView::Int(n) => text::decimal_int(n),
        TermView::Date(d) => time::date_text(d),
        TermView::Other => Seq::<char>::empty(),
    }
}

/// The text of a fact with one or two terms.
pub open spec fn fact_text(f: FactView) -> Seq<char> {
    if f.terms.len() == 2 {
        f.name + "("@ + term_text(f.terms[0]) + ", "@ + term_text(f.terms[1]) + ")"@
    } else {
        f.name + "("@ + term_text(f.terms[0]) + ")"@
    }
}

// -- Checks -------------------------------------------------------------------------------

/// A check of a token's block.
#[verifier::ext_equal]
pub enum CheckView {
    /// The operation is one of a list.
    Operation(Seq<Seq<char>>),
    /// The resource is one of a list.
    Resource(Seq<Seq<char>>),
    /// The action has a cost of at most a number.
    ActionCost(int),
    /// The time is at most a second.
    NotAfter(int),
    /// The principal acted for is the one the token names.
    ActingFor,
    /// A check of any other form.
    Other,
}

/// The texts of a list of strings, with commas between.
pub open spec fn joined(v: Seq<Seq<char>>) -> Seq<char>
    decreases v.len(),
{
    if v.len() == 0 {
        Seq::<char>::empty()
    } else if v.len() == 1 {
        quoted_term(v[0])
    } else {
        joined(v.drop_last()) + ", "@ + quoted_term(v.last())
    }
}

/// The text of a list of strings.
pub open spec fn list_text(v: Seq<Seq<char>>) -> Seq<char> {
    "["@ + joined(v) + "]"@
}

/// Whether a check can be written.
pub open spec fn writable_check(c: CheckView) -> bool {
    match c {
        CheckView::Operation(v) => forall|i: int| 0 <= i < v.len() ==> quotable(#[trigger] v[i]),
        CheckView::Resource(v) => forall|i: int| 0 <= i < v.len() ==> quotable(#[trigger] v[i]),
        CheckView::ActionCost(n) => 0 <= n <= i64::MAX,
        CheckView::NotAfter(d) => dateable(d),
        CheckView::ActingFor => true,
        CheckView::Other => false,
    }
}

/// The text of a check.
pub open spec fn check_text(c: CheckView) -> Seq<char> {
    match c {
        CheckView::Operation(v) => "check if operation($op), "@ + list_text(v) + ".contains($op)"@,
        CheckView::Resource(v) => "check if resource($r), "@ + list_text(v) + ".contains($r)"@,
        CheckView::ActionCost(n) => "check if action_cost($c), $c <= "@ + text::decimal_int(n),
        CheckView::NotAfter(d) => "check if time($t), $t <= "@ + time::date_text(d),
        CheckView::ActingFor => "check if acting_for($p), principal($p)"@,
        CheckView::Other => Seq::<char>::empty(),
    }
}

/// Whether a check holds over the facts it sees.
pub open spec fn check_holds(c: CheckView, facts: Seq<FactView>) -> bool {
    match c {
        CheckView::Operation(v) => exists|s: Seq<char>|
            v.contains(s) && facts.contains(#[trigger] str_fact("operation"@, s)),
        CheckView::Resource(v) => exists|s: Seq<char>|
            v.contains(s) && facts.contains(#[trigger] str_fact("resource"@, s)),
        CheckView::ActionCost(n) => exists|k: int|
            k <= n && facts.contains(#[trigger] int_fact("action_cost"@, k)),
        CheckView::NotAfter(d) => exists|t: int|
            t <= d && facts.contains(#[trigger] date_fact("time"@, t)),
        CheckView::ActingFor => exists|t: TermView|
            facts.contains(#[trigger] one_fact("acting_for"@, t)) && facts.contains(
                one_fact("principal"@, t),
            ),
        CheckView::Other => true,
    }
}

// -- Blocks -------------------------------------------------------------------------------

/// One block of a token.
#[verifier::ext_equal]
pub struct BlockView {
    /// Its facts.
    pub facts: Seq<FactView>,
    /// Its checks.
    pub checks: Seq<CheckView>,
    /// Whether it holds nothing else: no rules and no trust annotations.
    pub plain: bool,
    /// The public key of the third party that signed it, where one did.
    pub signer: Option<Seq<u8>>,
}

/// The facts that a check of block `i` sees: the request's, the authority block's, and its
/// own block's.
pub open spec fn visible(request: Seq<FactView>, blocks: Seq<BlockView>, i: int) -> Seq<FactView> {
    request + blocks[0].facts + blocks[i].facts
}

/// Whether every check that stands in a plain block, under a plain authority block, holds
/// for a request.
pub open spec fn permitted(request: Seq<FactView>, blocks: Seq<BlockView>) -> bool {
    forall|i: int, j: int|
        0 <= i < blocks.len() && 0 <= j < blocks[i].checks.len() && blocks[0].plain
            && blocks[i].plain ==> check_holds(
            #[trigger] blocks[i].checks[j],
            visible(request, blocks, i),
        )
}

/// A policy of an authorizer.
#[derive(Clone, Copy, PartialEq, Eq, Structural)]
pub enum PolicyView {
    /// Every request whose checks hold is allowed.
    Allow,
    /// Every request is denied.
    Deny,
}

/// The text of a policy.
pub open spec fn policy_text(p: PolicyView) -> Seq<char> {
    match p {
        PolicyView::Allow => "allow if true"@,
        PolicyView::Deny => "deny if true"@,
    }
}

/// The texts of some facts.
pub open spec fn fact_texts(facts: Seq<FactView>) -> Seq<Seq<char>> {
    facts.map_values(|f: FactView| fact_text(f))
}

/// The rule that reads the single terms of the facts of a name.
pub open spec fn query_text(name: Seq<char>) -> Seq<char> {
    "data($x) <- "@ + name + "($x)"@
}

/// The rule that reads the term pairs of the facts of a name.
pub open spec fn pair_query_text(name: Seq<char>) -> Seq<char> {
    "data($k, $t) <- "@ + name + "($k, $t)"@
}

/// The strings that the facts of a name hold.
pub open spec fn strings_in(facts: Seq<FactView>, name: Seq<char>) -> Set<Seq<char>> {
    Set::new(|s: Seq<char>| facts.contains(str_fact(name, s)))
}

/// The integers that the facts of a name hold.
pub open spec fn ints_in(facts: Seq<FactView>, name: Seq<char>) -> Set<int> {
    Set::new(|n: int| facts.contains(int_fact(name, n)))
}

/// The string pairs that the facts of a name hold.
pub open spec fn pairs_in(facts: Seq<FactView>, name: Seq<char>) -> Set<(Seq<char>, Seq<char>)> {
    Set::new(|p: (Seq<char>, Seq<char>)| facts.contains(pair_fact(name, p.0, p.1)))
}

/// The facts of all blocks.
pub open spec fn all_facts(blocks: Seq<BlockView>) -> Seq<FactView>
    decreases blocks.len(),
{
    if blocks.len() == 0 {
        Seq::<FactView>::empty()
    } else {
        all_facts(blocks.drop_last()) + blocks.last().facts
    }
}

/// Whether all blocks are plain.
pub open spec fn all_plain(blocks: Seq<BlockView>) -> bool {
    forall|i: int| 0 <= i < blocks.len() ==> (#[trigger] blocks[i]).plain
}

// -- Writing --------------------------------------------------------------------------------

/// Whether a text may stand in a Datalog string term: it has no character that could break
/// out of the quotes or the line.
pub open spec fn safe_text(s: Seq<char>) -> bool {
    !s.contains('"') && !s.contains('\\') && !s.contains('\n') && !s.contains('\r')
        && !s.contains('\0')
}

/// The error of a text that may not stand in a Datalog string term.
pub open spec fn unsafe_text(s: Seq<char>) -> ErrorView {
    ErrorView::OutOfBounds {
        field: "scope"@,
        detail: "illegal character in Datalog string term: "@ + text::quoted_text(s),
    }
}

/// Whether every text of a list may stand in a Datalog string term.
pub open spec fn all_safe(v: Seq<Seq<char>>) -> bool {
    forall|i: int| 0 <= i < v.len() ==> safe_text(#[trigger] v[i])
}

/// The first text of a list that may not stand in a Datalog string term.
pub open spec fn first_unsafe(v: Seq<Seq<char>>) -> Option<Seq<char>>
    decreases v.len(),
{
    if v.len() == 0 {
        None
    } else if !safe_text(v[0]) {
        Some(v[0])
    } else {
        first_unsafe(v.skip(1))
    }
}

/// A text result by view.
pub open spec fn text_result(r: Result<String, AgentCredsError>) -> Result<Seq<char>, ErrorView> {
    match r {
        Ok(s) => Ok(s@),
        Err(e) => Err(e@),
    }
}

/// Quote a value for inclusion in a Datalog string term.
///
/// # Errors
/// `OutOfBounds` where the value has a character that could break out of the quotes.
pub fn datalog_str(s: &str) -> (r: Result<String, AgentCredsError>)
    ensures
        text_result(r) == if safe_text(s@) {
            Ok::<Seq<char>, ErrorView>(quoted_term(s@))
        } else {
            Err::<Seq<char>, ErrorView>(unsafe_text(s@))
        },
{
    if text::has_char(s, '"') || text::has_char(s, '\\') || text::has_char(s, '\n')
        || text::has_char(s, '\r') || text::has_char(s, '\0') {
        let mut detail = "illegal character in Datalog string term: ".to_owned();
        detail.append(text::quoted(s).as_str());
        return Err(AgentCredsError::OutOfBounds { field: "scope", detail });
    }
    let mut q = "\"".to_owned();
    q.append(s);
    q.append("\"");
    Ok(q)
}

/// Render a list of identifiers as a Datalog list, e.g. `["tool:email", "tool:search"]`.
///
/// # Errors
/// `OutOfBounds` for the first identifier that may not stand in a string term.
pub fn tool_set_literal(tools: &Vec<String>) -> (r: Result<String, AgentCredsError>)
    ensures
        match first_unsafe(text::views(tools@)) {
            Some(s) => text_result(r) == Err::<Seq<char>, ErrorView>(unsafe_text(s)),
            None => text_result(r) == Ok::<Seq<char>, ErrorView>(list_text(text::views(tools@)))
                && all_safe(text::views(tools@)),
        },
{
    let ghost all = text::views(tools@);
    let mut out = "[".to_owned();
    let mut items = String::new();
    assert(all.take(0) =~= Seq::<Seq<char>>::empty());
    assert(all.skip(0) =~= all);
    for i in 0..tools.len()
        invariant
            all == text::views(tools@),
            items@ == joined(all.take(i as int)),
            first_unsafe(all) == first_unsafe(all.skip(i as int)),
            all_safe(all.take(i as int)),
    {
        assert(all[i as int] == tools@[i as int]@);
        assert(all.skip(i as int)[0] == all[i as int]);
        assert(all.skip(i as int).skip(1) =~= all.skip(i + 1));
        let item = match datalog_str(tools[i].as_str()) {
            Ok(t) => t,
            Err(e) => {
                return Err(e);
            },
        };
        if i > 0 {
            items.append(", ");
        }
        items.append(item.as_str());
        proof {
            let next = all.take(i + 1);
            assert(next.drop_last() =~= all.take(i as int));
            assert(next.last() == all[i as int]);
            if i == 0 {
                assert(items@ =~= quoted_term(all[0]));
                assert(next[0] == all[0]);
            }
            assert forall|k: int| 0 <= k < next.len() implies safe_text(#[trigger] next[k]) by {
                if k < i {
                    assert(all.take(i as int)[k] == next[k]);
                }
            }
        }
    }
    assert(all.take(all.len() as int) =~= all);
    assert(all.skip(all.len() as int) =~= Seq::<Seq<char>>::empty());
    out.append(items.as_str());
    out.append("]");
    Ok(out)
}

/// The text of a fact with one string term.
///
/// # Errors
/// `OutOfBounds` where the value may not stand in a string term.
pub fn string_fact(name: &str, value: &str) -> (r: Result<String, AgentCredsError>)
    ensures
        text_result(r) == if safe_text(value@) {
            Ok::<Seq<char>, ErrorView>(fact_text(str_fact(name@, value@)))
        } else {
            Err::<Seq<char>, ErrorView>(unsafe_text(value@))
        },
{
    match datalog_str(value) {
        Ok(q) => {
            let mut s = name.to_owned();
            s.append("(");
            s.append(q.as_str());
            s.append(")");
            Ok(s)
        },
        Err(e) => Err(e),
    }
}

/// The text of a fact with two string terms.
///
/// # Errors
/// `OutOfBounds` for the first value that may not stand in a string term.
pub fn strings_fact(name: &str, a: &str, b: &str) -> (r: Result<String, AgentCredsError>)
    ensures
        text_result(r) == if !safe_text(a@) {
            Err::<Seq<char>, ErrorView>(unsafe_text(a@))
        } else if !safe_text(b@) {
            Err::<Seq<char>, ErrorView>(unsafe_text(b@))
        } else {
            Ok::<Seq<char>, ErrorView>(fact_text(pair_fact(name@, a@, b@)))
        },
{
    let x = match datalog_str(a) {
        Ok(q) => q,
        Err(e) => {
            return Err(e);
        },
    };
    let y = match datalog_str(b) {
        Ok(q) => q,
        Err(e) => {
            return Err(e);
        },
    };
    let mut s = name.to_owned();
    s.append("(");
    s.append(x.as_str());
    s.append(", ");
    s.append(y.as_str());
    s.append(")");
    Ok(s)
}

/// The text of a fact with one number.
pub fn number_fact(name: &str, value: u32) -> (r: String)
    ensures
        r@ == fact_text(int_fact(name@, value as int)),
{
    let mut s = name.to_owned();
    s.append("(");
    s.append(text::u64_text(value as u64).as_str());
    s.append(")");
    s
}

/// The text of a fact with the second of an instant.
pub fn time_fact(name: &str, value: &Timestamp) -> (r: String)
    ensures
        r@ == fact_text(date_fact(name@, time::second_of(value@))),
        time::MIN_SECS <= time::second_of(value@) <= time::MAX_SECS,
{
    let mut s = name.to_owned();
    s.append("(");
    s.append(value.date_literal().as_str());
    s.append(")");
    s
}

/// The text of the check that the operation is one of a list.
///
/// # Errors
/// `OutOfBounds` for the first identifier that may not stand in a string term.
pub fn operation_check(tools: &Vec<String>) -> (r: Result<String, AgentCredsError>)
    ensures
        match first_unsafe(text::views(tools@)) {
            Some(s) => text_result(r) == Err::<Seq<char>, ErrorView>(unsafe_text(s)),
            None => text_result(r) == Ok::<Seq<char>, ErrorView>(
                check_text(CheckView::Operation(text::views(tools@))),
            ) && all_safe(text::views(tools@)),
        },
{
    match tool_set_literal(tools) {
        Ok(l) => {
            let mut s = "check if operation($op), ".to_owned();
            s.append(l.as_str());
            s.append(".contains($op)");
            Ok(s)
        },
        Err(e) => Err(e),
    }
}

/// The text of the check that the resource is one of a list.
///
/// # Errors
/// `OutOfBounds` for the first identifier that may not stand in a string term.
pub fn resource_check(resources: &Vec<String>) -> (r: Result<String, AgentCredsError>)
    ensures
        match first_unsafe(text::views(resources@)) {
            Some(s) => text_result(r) == Err::<Seq<char>, ErrorView>(unsafe_text(s)),
            None => text_result(r) == Ok::<Seq<char>, ErrorView>(
                check_text(CheckView::Resource(text::views(resources@))),
            ) && all_safe(text::views(resources@)),
        },
{
    match tool_set_literal(resources) {
        Ok(l) => {
            let mut s = "check if resource($r), ".to_owned();
            s.append(l.as_str());
            s.append(".contains($r)");
            Ok(s)
        },
        Err(e) => Err(e),
    }
}

/// The text of the check that the action costs at most a number.
pub fn cost_check(cap: u32) -> (r: String)
    ensures
        r@ == check_text(CheckView::ActionCost(cap as int)),
{
    let mut s = "check if action_cost($c), $c <= ".to_owned();
    s.append(text::u64_text(cap as u64).as_str());
    s
}

/// The text of the check that the time is at most the second of an instant.
pub fn time_check(expires_at: &Timestamp) -> (r: String)
    ensures
        r@ == check_text(CheckView::NotAfter(time::second_of(expires_at@))),
        time::MIN_SECS <= time::second_of(expires_at@) <= time::MAX_SECS,
{
    let mut s = "check if time($t), $t <= ".to_owned();
    s.append(expires_at.date_literal().as_str());
    s
}

} // verus!
