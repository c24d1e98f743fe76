//! Execution-time human authorization: gates, approval evidence signed by the anchor or
//! by an approver's own key, the anchor-signed approver directory, and the record of
//! evidence already relied upon.

use vstd::prelude::*;
use vstd::string::*;
use crate::crypto;
use crate::delegation::action;
use crate::delegation::action::{Action, ActionView};
use crate::did;
use crate::did::{AgentIdentity, KeyView, PublicKey, TrustAnchor};
use crate::encoding;
use crate::error::{AgentCredsError, ErrorView};
use crate::signed;
use crate::strings;
use crate::strings::StringSet;
use crate::text;
use crate::time;
use crate::time::Timestamp;

verus! {

// -- Gates --------------------------------------------------------------------------------

/// A designation that a tool requires, before execution, evidence of an authorization
/// decision by an accountable human approver. Gates travel inside the delegated
/// authority; a derivation can only add gates.
#[derive(Debug, PartialEq, Eq, Hash)]
pub struct Gate {
    /// The designation kind - its evidence semantics.
    pub kind: String,
    /// The tool this designation applies to (exact match).
    pub tool: String,
}

/// A gate as mathematical values.
#[verifier::ext_equal]
pub struct GateView {
    pub kind: Seq<char>,
    pub tool: Seq<char>,
}

impl View for Gate {
    type V = GateView;

    open spec fn view(&self) -> GateView {
        GateView { kind: self.kind@, tool: self.tool@ }
    }
}

impl Clone for Gate {
    fn clone(&self) -> (r: Self)
        ensures
            r@ == self@,
    {
        Gate { kind: self.kind.clone(), tool: self.tool.clone() }
    }
}

/// The views of a sequence of gates.
pub open spec fn gate_views(v: Seq<Gate>) -> Seq<GateView> {
    v.map_values(|g: Gate| g@)
}

impl Gate {
    /// A human approval decision attested by the organizational trust anchor.
    pub const APPROVAL: &'static str = "approval";

    /// Like [`Gate::APPROVAL`], with evidence signed by the individual approver's key,
    /// which an approver directory publishes.
    pub const APPROVAL_KEY: &'static str = "approval-key";

    /// Intent-alignment evidence. Gates of this kind have no handler, so a token carrying one
    /// is denied whether or not the kind is listed as recognized.
    pub const INTENT: &'static str = "intent-alignment";

    /// A gate requiring intent-alignment evidence before `tool` may execute.
    pub fn intent(tool: &str) -> (r: Self)
        ensures
            r@ == (GateView { kind: "intent-alignment"@, tool: tool@ }),
    {
        Gate { kind: Self::INTENT.to_owned(), tool: tool.to_owned() }
    }

    /// A gate requiring anchor-attested human approval before `tool` may execute.
    pub fn approval(tool: &str) -> (r: Self)
        ensures
            r@ == (GateView { kind: "approval"@, tool: tool@ }),
    {
        Gate { kind: Self::APPROVAL.to_owned(), tool: tool.to_owned() }
    }

    /// A gate requiring approver-key-signed human approval before `tool` may execute.
    pub fn approval_key(tool: &str) -> (r: Self)
        ensures
            r@ == (GateView { kind: "approval-key"@, tool: tool@ }),
    {
        Gate { kind: Self::APPROVAL_KEY.to_owned(), tool: tool.to_owned() }
    }

    /// Whether two gates have the same kind and tool.
    pub fn same(&self, other: &Gate) -> (r: bool)
        ensures
            r == (self@ == other@),
    {
        text::str_eq(self.kind.as_str(), other.kind.as_str()) && text::str_eq(
            self.tool.as_str(),
            other.tool.as_str(),
        )
    }
}

/// A copy of a list of gates.
pub fn gates_clone(v: &Vec<Gate>) -> (r: Vec<Gate>)
    ensures
        gate_views(r@) == gate_views(v@),
{
    let mut out: Vec<Gate> = Vec::new();
    for i in 0..v.len()
        invariant
            out@.len() == i,
            forall|j: int| 0 <= j < i ==> (#[trigger] out@[j])@ == v@[j]@,
    {
        out.push(v[i].clone());
    }
    assert(gate_views(out@) =~= gate_views(v@));
    out
}

/// Whether a list of gates holds a gate.
pub fn has_gate(v: &Vec<Gate>, g: &Gate) -> (r: bool)
    ensures
        r == gate_views(v@).contains(g@),
{
    for i in 0..v.len()
        invariant
            forall|j: int| 0 <= j < i ==> gate_views(v@)[j] != g@,
    {
        assert(gate_views(v@)[i as int] == v@[i as int]@);
        if v[i].same(g) {
            return true;
        }
    }
    false
}

/// Gates are ordered by kind, then by tool.
pub open spec fn gate_lt(a: GateView, b: GateView) -> bool {
    strings::lex_lt(a.kind, b.kind) || (a.kind == b.kind && strings::lex_lt(a.tool, b.tool))
}

/// Each gate comes before every later one.
pub open spec fn gates_ascending(v: Seq<GateView>) -> bool {
    forall|i: int, j: int| 0 <= i < j < v.len() ==> gate_lt(#[trigger] v[i], #[trigger] v[j])
}

proof fn lemma_gate_order(a: GateView, b: GateView, c: GateView)
    ensures
        gate_lt(a, b) && gate_lt(b, c) ==> gate_lt(a, c),
        a == b || gate_lt(a, b) || gate_lt(b, a),
{
    if gate_lt(a, b) && gate_lt(b, c) {
        if strings::lex_lt(a.kind, b.kind) && strings::lex_lt(b.kind, c.kind) {
            strings::lemma_lex_transitive(a.kind, b.kind, c.kind);
        }
        if strings::lex_lt(a.tool, b.tool) && strings::lex_lt(b.tool, c.tool) {
            strings::lemma_lex_transitive(a.tool, b.tool, c.tool);
        }
    }
    strings::lemma_lex_total(a.kind, b.kind);
    strings::lemma_lex_total(a.tool, b.tool);
}

/// Puts a gate into an ascending list that does not hold it, keeping the list ascending.
fn insert_gate(v: &mut Vec<Gate>, g: Gate)
    requires
        gates_ascending(gate_views(old(v)@)),
        !gate_views(old(v)@).contains(g@),
    ensures
        gates_ascending(gate_views(final(v)@)),
        forall|y: GateView|
            gate_views(final(v)@).contains(y) <==> gate_views(old(v)@).contains(y) || y == g@,
{
    let ghost before = gate_views(v@);
    let mut i: usize = 0;
    while i < v.len() && (strings::str_lt(v[i].kind.as_str(), g.kind.as_str()) || (text::str_eq(
        v[i].kind.as_str(),
        g.kind.as_str(),
    ) && strings::str_lt(v[i].tool.as_str(), g.tool.as_str())))
        invariant
            gate_views(v@) == before,
            gates_ascending(before),
            i <= v.len(),
            forall|j: int| 0 <= j < i ==> gate_lt(#[trigger] before[j], g@),
        decreases v.len() - i,
    {
        assert(before[i as int] == v@[i as int]@);
        i = i + 1;
    }
    let ghost k = i as int;
    let ghost item = g@;
    proof {
        if k < before.len() {
            assert(before[k] == v@[k]@);
            lemma_gate_order(before[k], item, item);
            assert(before.contains(before[k]));
            assert forall|j: int| k <= j < before.len() implies gate_lt(
                item,
                #[trigger] before[j],
            ) by {
                if j > k {
                    lemma_gate_order(item, before[k], before[j]);
                }
            }
        }
    }
    v.insert(i, g);
    proof {
        let after = gate_views(v@);
        assert(after =~= before.insert(k, item));
        assert forall|a: int, b: int| 0 <= a < b < after.len() implies gate_lt(
            #[trigger] after[a],
            #[trigger] after[b],
        ) by {
            let pa = if a < k {
                a
            } else {
                a - 1
            };
            let pb = if b < k {
                b
            } else {
                b - 1
            };
            if a != k && b != k {
                assert(after[a] == before[pa] && after[b] == before[pb]);
            }
        }
        assert forall|y: GateView| after.contains(y) <==> before.contains(y) || y == item by {
            if after.contains(y) {
                let j = choose|j: int| 0 <= j < after.len() && after[j] == y;
                if j != k {
                    let pj = if j < k {
                        j
                    } else {
                        j - 1
                    };
                    assert(before[pj] == y);
                }
            }
            if before.contains(y) {
                let j = choose|j: int| 0 <= j < before.len() && before[j] == y;
                let nj = if j < k {
                    j
                } else {
                    j + 1
                };
                assert(after[nj] == y);
            }
            assert(after[k] == item);
        }
    }
}

/// The distinct gates of a list, ordered by kind and tool.
pub fn sorted_gates(v: &Vec<Gate>) -> (r: Vec<Gate>)
    ensures
        gates_ascending(gate_views(r@)),
        forall|y: GateView| gate_views(r@).contains(y) <==> gate_views(v@).contains(y),
{
    let mut out: Vec<Gate> = Vec::new();
    for i in 0..v.len()
        invariant
            gates_ascending(gate_views(out@)),
            forall|y: GateView|
                gate_views(out@).contains(y) <==> gate_views(v@.take(i as int)).contains(y),
    {
        let ghost seen = gate_views(v@.take(i as int));
        let ghost next = gate_views(v@.take(i + 1));
        let ghost x = v@[i as int]@;
        proof {
            assert(next =~= seen.push(x));
            assert forall|y: GateView| next.contains(y) <==> seen.contains(y) || y == x by {
                if seen.contains(y) {
                    let j = choose|j: int| 0 <= j < seen.len() && seen[j] == y;
                    assert(next[j] == y);
                }
                assert(next[i as int] == x);
                if next.contains(y) && y != x {
                    let j = choose|j: int| 0 <= j < next.len() && next[j] == y;
                    assert(seen[j] == y);
                }
            }
        }
        if !has_gate(&out, &v[i]) {
            insert_gate(&mut out, v[i].clone());
        }
    }
    assert(v@.take(v@.len() as int) =~= v@);
    out
}

// -- Approver directory ------------------------------------------------------------------------

/// One human approver enrolled in the approver directory.
#[derive(Debug, PartialEq, Eq)]
pub struct ApproverEntry {
    /// Stable approver identity (e.g. an operator DID or OIDC subject).
    pub approver_id: String,
    /// `did:key` encoding the approver's public verification key.
    pub approver_did: String,
    /// Roles this approver holds (e.g. `["finance"]`); a gate may require one.
    pub roles: Vec<String>,
    /// Optional per-approver expiry.
    pub not_after: Option<Timestamp>,
}

/// A directory entry as mathematical values.
#[verifier::ext_equal]
pub struct EntryView {
    pub approver_id: Seq<char>,
    pub approver_did: Seq<char>,
    pub roles: Seq<Seq<char>>,
    pub not_after: Option<int>,
}

impl View for ApproverEntry {
    type V = EntryView;

    open spec fn view(&self) -> EntryView {
        EntryView {
            approver_id: self.approver_id@,
            approver_did: self.approver_did@,
            roles: text::views(self.roles@),
            not_after: signed::opt_time(self.not_after),
        }
    }
}

impl Clone for ApproverEntry {
    fn clone(&self) -> (r: Self)
        ensures
            r@ == self@,
    {
        ApproverEntry {
            approver_id: self.approver_id.clone(),
            approver_did: self.approver_did.clone(),
            roles: text::strings_clone(&self.roles),
            not_after: self.not_after,
        }
    }
}

/// The views of a sequence of entries.
pub open spec fn entry_views(v: Seq<ApproverEntry>) -> Seq<EntryView> {
    v.map_values(|e: ApproverEntry| e@)
}

/// A versioned, anchor-signed directory of human approver keys.
#[derive(Debug)]
pub struct ApproverDirectory {
    /// Monotonic version (bump on each change; enables rollback detection).
    pub version: u64,
    /// When the directory was sealed.
    pub generated_at: Timestamp,
    /// DID of the org anchor that signed it.
    pub issuer_did: String,
    /// The enrolled approvers, sorted by `approver_id`.
    pub entries: Vec<ApproverEntry>,
    /// Optional expiry; past this instant a consumer rejects it.
    pub not_after: Option<Timestamp>,
    /// The org anchor's signature over the canonical digest (hex).
    pub signature: String,
}

impl Clone for ApproverDirectory {
    fn clone(&self) -> (r: Self)
        ensures
            r@ == self@,
    {
        let mut entries: Vec<ApproverEntry> = Vec::new();
        for i in 0..self.entries.len()
            invariant
                entries@.len() == i,
                forall|j: int| 0 <= j < i ==> (#[trigger] entries@[j])@ == self.entries@[j]@,
        {
            entries.push(self.entries[i].clone());
        }
        assert(entry_views(entries@) =~= entry_views(self.entries@));
        ApproverDirectory {
            version: self.version,
            generated_at: self.generated_at,
            issuer_did: self.issuer_did.clone(),
            entries,
            not_after: self.not_after,
            signature: self.signature.clone(),
        }
    }
}

/// A directory as mathematical values.
#[verifier::ext_equal]
pub struct DirectoryView {
    pub version: u64,
    pub generated_at: int,
    pub issuer_did: Seq<char>,
    pub entries: Seq<EntryView>,
    pub not_after: Option<int>,
    pub signature: Seq<char>,
}

impl View for ApproverDirectory {
    type V = DirectoryView;

    open spec fn view(&self) -> DirectoryView {
        DirectoryView {
            version: self.version,
            generated_at: self.generated_at@,
            issuer_did: self.issuer_did@,
            entries: entry_views(self.entries@),
            not_after: signed::opt_time(self.not_after),
            signature: self.signature@,
        }
    }
}

/// A presence byte, then the second of an instant where there is one.
pub open spec fn opt_second_bytes(t: Option<int>) -> Seq<u8> {
    match t {
        Some(x) => seq![1u8] + encoding::le64_signed(time::second_of(x) as i64),
        None => seq![0u8],
    }
}

/// The bytes of a directory entry.
pub open spec fn entry_bytes(e: EntryView) -> Seq<u8> {
    encoding::text_field(e.approver_id) + encoding::text_field(e.approver_did) + encoding::le64(
        e.roles.len() as u64,
    ) + encoding::text_fields(e.roles) + opt_second_bytes(e.not_after)
}

/// The bytes of directory entries, one after another.
pub open spec fn entries_bytes(v: Seq<EntryView>) -> Seq<u8>
    decreases v.len(),
{
    if v.len() == 0 {
        seq![]
    } else {
        entries_bytes(v.drop_last()) + entry_bytes(v.last())
    }
}

/// The bytes under a directory's digest.
pub open spec fn directory_bytes(d: DirectoryView) -> Seq<u8> {
    encoding::utf8("agentcreds-approver-directory-v1"@) + encoding::le64(d.version)
        + encoding::le64_signed(time::second_of(d.generated_at) as i64) + encoding::text_field(
        d.issuer_did,
    ) + entries_bytes(d.entries) + opt_second_bytes(d.not_after)
}

/// The digest that a directory's signature is over.
pub open spec fn directory_digest(d: DirectoryView) -> Seq<u8> {
    crypto::sha256_digest(directory_bytes(d))
}

/// What verifying a directory gives.
pub open spec fn directory_current(
    d: DirectoryView,
    anchor_did: Seq<char>,
    anchor_key: KeyView,
    now: int,
) -> Result<(), ErrorView> {
    signed::anchor_signed(
        d.issuer_did,
        directory_digest(d),
        d.signature,
        d.not_after,
        now,
        anchor_did,
        anchor_key,
        "approver directory"@,
    )
}

/// Whether an entry is the live one of an approver.
pub open spec fn is_live_entry(e: EntryView, approver_did: Seq<char>, now: int) -> bool {
    e.approver_did == approver_did && (e.not_after is Some ==> now <= e.not_after->0)
}

/// The first live entry of an approver.
pub open spec fn live_entry(entries: Seq<EntryView>, approver_did: Seq<char>, now: int) -> Option<
    EntryView,
>
    decreases entries.len(),
{
    if entries.len() == 0 {
        None
    } else if is_live_entry(entries[0], approver_did, now) {
        Some(entries[0])
    } else {
        live_entry(entries.skip(1), approver_did, now)
    }
}

/// Whether the entries are in order of their approver ids.
pub open spec fn in_id_order(v: Seq<EntryView>) -> bool {
    forall|i: int, j: int|
        0 <= i < j < v.len() ==> !strings::lex_lt(
            (#[trigger] v[j]).approver_id,
            (#[trigger] v[i]).approver_id,
        )
}

/// Entries with one more put behind those whose id does not come after its own.
pub open spec fn entered(v: Seq<EntryView>, e: EntryView) -> Seq<EntryView>
    decreases v.len(),
{
    if v.len() > 0 && strings::lex_lt(e.approver_id, v.last().approver_id) {
        entered(v.drop_last(), e).push(v.last())
    } else {
        v.push(e)
    }
}

/// Entries sorted by their approver ids; those with the same id keep their order.
pub open spec fn by_id(v: Seq<EntryView>) -> Seq<EntryView>
    decreases v.len(),
{
    if v.len() == 0 {
        Seq::empty()
    } else {
        entered(by_id(v.drop_last()), v.last())
    }
}

proof fn lemma_entered(v: Seq<EntryView>, e: EntryView, i: int)
    requires
        0 <= i <= v.len(),
        i > 0 ==> !strings::lex_lt(e.approver_id, v[i - 1].approver_id),
        forall|j: int|
            i <= j < v.len() ==> strings::lex_lt(e.approver_id, (#[trigger] v[j]).approver_id),
    ensures
        entered(v, e) == v.insert(i, e),
    decreases v.len(),
{
    if v.len() > 0 && strings::lex_lt(e.approver_id, v.last().approver_id) {
        assert(i < v.len());
        let w = v.drop_last();
        assert forall|j: int| i <= j < w.len() implies strings::lex_lt(
            e.approver_id,
            (#[trigger] w[j]).approver_id,
        ) by {
            assert(w[j] == v[j]);
        }
        lemma_entered(w, e, i);
        assert(entered(v, e) =~= v.insert(i, e));
    } else {
        if i < v.len() {
            assert(strings::lex_lt(e.approver_id, v[v.len() - 1].approver_id));
        }
        assert(entered(v, e) =~= v.insert(i, e));
    }
}

proof fn lemma_entered_order(v: Seq<EntryView>, e: EntryView)
    requires
        in_id_order(v),
    ensures
        in_id_order(entered(v, e)),
        entered(v, e).to_multiset() == v.to_multiset().insert(e),
    decreases v.len(),
{
    let f = entered(v, e);
    if v.len() > 0 && strings::lex_lt(e.approver_id, v.last().approver_id) {
        let (w, last) = (v.drop_last(), v.last());
        assert(in_id_order(w)) by {
            assert forall|i: int, j: int| 0 <= i < j < w.len() implies !strings::lex_lt(
                (#[trigger] w[j]).approver_id,
                (#[trigger] w[i]).approver_id,
            ) by {
                assert(w[i] == v[i] && w[j] == v[j]);
            }
        }
        lemma_entered_order(w, e);
        let g = entered(w, e);
        assert(v =~= w.push(last));
        w.to_multiset_ensures();
        g.to_multiset_ensures();
        assert(f.to_multiset() =~= v.to_multiset().insert(e));
        assert forall|i: int| 0 <= i < g.len() implies !strings::lex_lt(
            last.approver_id,
            (#[trigger] g[i]).approver_id,
        ) by {
            assert(g.to_multiset().count(g[i]) > 0) by {
                assert(g.contains(g[i]));
            }
            if g[i] == e {
                if strings::lex_lt(last.approver_id, e.approver_id) {
                    strings::lemma_lex_transitive(
                        last.approver_id,
                        e.approver_id,
                        last.approver_id,
                    );
                    strings::lemma_lex_irreflexive(last.approver_id);
                }
            } else {
                assert(w.to_multiset().count(g[i]) > 0);
                assert(w.contains(g[i]));
                let k = choose|k: int| 0 <= k < w.len() && w[k] == g[i];
                assert(!strings::lex_lt(v[v.len() - 1].approver_id, v[k].approver_id));
            }
        }
        assert forall|i: int, j: int| 0 <= i < j < f.len() implies !strings::lex_lt(
            (#[trigger] f[j]).approver_id,
            (#[trigger] f[i]).approver_id,
        ) by {
            assert(f[i] == g[i]);
            if j < g.len() {
                assert(f[j] == g[j]);
            }
        }
    } else {
        v.to_multiset_ensures();
        assert forall|i: int| 0 <= i < v.len() implies !strings::lex_lt(
            e.approver_id,
            (#[trigger] v[i]).approver_id,
        ) by {
            let last = v[v.len() - 1];
            if strings::lex_lt(e.approver_id, v[i].approver_id) && i < v.len() - 1 {
                assert(!strings::lex_lt(last.approver_id, v[i].approver_id));
                strings::lemma_lex_total(last.approver_id, v[i].approver_id);
                if strings::lex_lt(v[i].approver_id, last.approver_id) {
                    strings::lemma_lex_transitive(
                        e.approver_id,
                        v[i].approver_id,
                        last.approver_id,
                    );
                }
            }
        }
    }
}

/// The entries of a sealed directory are all those that were given, in order of their approver
/// ids.
pub proof fn entries_are_sorted_and_kept(v: Seq<EntryView>)
    ensures
        in_id_order(by_id(v)),
        by_id(v).to_multiset() == v.to_multiset(),
    decreases v.len(),
{
    if v.len() > 0 {
        let (w, last) = (v.drop_last(), v.last());
        entries_are_sorted_and_kept(w);
        lemma_entered_order(by_id(w), last);
        assert(v =~= w.push(last));
        w.to_multiset_ensures();
        assert(by_id(v).to_multiset() =~= v.to_multiset());
    } else {
        assert(by_id(v) =~= v);
    }
}

fn enter(v: &mut Vec<ApproverEntry>, e: ApproverEntry)
    ensures
        entry_views(final(v)@) == entered(entry_views(old(v)@), e@),
{
    let ghost before = entry_views(v@);
    let ghost x = e@;
    let mut i: usize = v.len();
    while i > 0 && strings::str_lt(e.approver_id.as_str(), v[i - 1].approver_id.as_str())
        invariant
            i <= v@.len(),
            before == entry_views(v@),
            x == e@,
            forall|j: int|
                i <= j < before.len() ==> strings::lex_lt(
                    x.approver_id,
                    (#[trigger] before[j]).approver_id,
                ),
        decreases i,
    {
        assert(before[i - 1] == v@[i - 1]@);
        i = i - 1;
    }
    proof {
        if i > 0 {
            assert(before[i - 1] == v@[i - 1]@);
        }
        lemma_entered(before, x, i as int);
    }
    v.insert(i, e);
    assert(entry_views(v@) =~= before.insert(i as int, x));
}

fn put_opt_second(out: &mut Vec<u8>, t: Option<Timestamp>)
    ensures
        final(out)@ == old(out)@ + opt_second_bytes(signed::opt_time(t)),
{
    let ghost before = out@;
    match t {
        Some(x) => {
            out.push(1u8);
            encoding::put_i64(out, x.timestamp());
            assert(out@ =~= before + opt_second_bytes(Some(x@)));
        },
        None => {
            out.push(0u8);
            assert(out@ =~= before + opt_second_bytes(None));
        },
    }
}

fn entry_encoding(e: &ApproverEntry) -> (r: Vec<u8>)
    ensures
        r@ == entry_bytes(e@),
{
    let mut m: Vec<u8> = Vec::new();
    encoding::put_text(&mut m, e.approver_id.as_str());
    assert(m@ =~= encoding::text_field(e@.approver_id));
    encoding::put_text(&mut m, e.approver_did.as_str());
    encoding::put_u64(&mut m, e.roles.len() as u64);
    encoding::put_texts(&mut m, &e.roles);
    put_opt_second(&mut m, e.not_after);
    m
}

fn entries_encoding(v: &Vec<ApproverEntry>) -> (r: Vec<u8>)
    ensures
        r@ == entries_bytes(entry_views(v@)),
{
    let mut m: Vec<u8> = Vec::new();
    assert(entry_views(v@.take(0)) =~= Seq::<EntryView>::empty());
    for i in 0..v.len()
        invariant
            m@ == entries_bytes(entry_views(v@.take(i as int))),
    {
        let one = entry_encoding(&v[i]);
        encoding::put_bytes(&mut m, one.as_slice());
        proof {
            let done = entry_views(v@.take(i as int));
            let next = entry_views(v@.take(i + 1));
            assert(next =~= done.push(v@[i as int]@));
            assert(next.drop_last() =~= done);
        }
    }
    assert(v@.take(v@.len() as int) =~= v@);
    m
}

impl ApproverDirectory {
    /// The digest that the directory's signature is over.
    fn digest(&self) -> (r: Vec<u8>)
        ensures
            r@ == directory_digest(self@),
    {
        let mut m: Vec<u8> = Vec::new();
        encoding::put_bytes(&mut m, "agentcreds-approver-directory-v1".as_bytes());
        assert(m@ =~= encoding::utf8("agentcreds-approver-directory-v1"@));
        encoding::put_u64(&mut m, self.version);
        encoding::put_i64(&mut m, self.generated_at.timestamp());
        encoding::put_text(&mut m, self.issuer_did.as_str());
        let entries = entries_encoding(&self.entries);
        encoding::put_bytes(&mut m, entries.as_slice());
        put_opt_second(&mut m, self.not_after);
        crypto::sha256(m.as_slice())
    }

    /// Seal (sign) a directory with the org `anchor`. Entries are sorted by `approver_id`,
    /// those with the same id keeping their order.
    ///
    /// # Errors
    /// Whatever the anchor's signer returns.
    pub fn seal(
        entries: Vec<ApproverEntry>,
        version: u64,
        generated_at: Timestamp,
        not_after: Option<Timestamp>,
        anchor: &TrustAnchor,
    ) -> (r: Result<Self, AgentCredsError>)
        ensures
            anchor.in_software() && anchor.key().algorithm is Ed25519 ==> r is Ok,
            r is Ok ==> {
                let d = r->Ok_0@;
                &&& d.version == version
                &&& d.generated_at == generated_at@
                &&& d.not_after == signed::opt_time(not_after)
                &&& d.issuer_did == anchor.did_text()
                &&& d.entries == by_id(entry_views(entries@))
                &&& exists|sig: Result<Vec<u8>, AgentCredsError>|
                    #[trigger] anchor.may_sign(directory_digest(d), sig) && sig is Ok
                        && d.signature == crypto::hex_text(sig->Ok_0@)
                &&& anchor.in_software() ==> exists|sig: Seq<u8>|
                    d.signature == #[trigger] crypto::hex_text(sig) && did::key_verifies(
                        anchor.key(),
                        directory_digest(d),
                        sig,
                    ) is Ok
            },
            r is Err ==> anchor.may_sign(
                directory_digest(
                    DirectoryView {
                        version,
                        generated_at: generated_at@,
                        issuer_did: anchor.did_text(),
                        entries: by_id(entry_views(entries@)),
                        not_after: signed::opt_time(not_after),
                        signature: ""@,
                    },
                ),
                Err::<Vec<u8>, AgentCredsError>(r->Err_0),
            ),
    {
        let ghost all = entry_views(entries@);
        let mut sorted: Vec<ApproverEntry> = Vec::new();
        assert(entry_views(sorted@) =~= by_id(all.take(0)));
        for i in 0..entries.len()
            invariant
                all == entry_views(entries@),
                entry_views(sorted@) == by_id(all.take(i as int)),
        {
            enter(&mut sorted, entries[i].clone());
            assert(all.take(i + 1).drop_last() =~= all.take(i as int));
            assert(all.take(i + 1).last() == entries@[i as int]@);
        }
        assert(all.take(all.len() as int) =~= all);
        let mut dir = ApproverDirectory {
            version,
            generated_at,
            issuer_did: anchor.did().to_owned(),
            entries: sorted,
            not_after,
            signature: String::new(),
        };
        let digest = dir.digest();
        let ghost unsigned = dir@;
        let answer = anchor.sign(digest.as_slice());
        let ghost given = answer;
        match answer {
            Ok(s) => {
                dir.signature = signed::encode_signature(s.as_slice());
                assert(directory_bytes(dir@) == directory_bytes(unsigned));
                assert(anchor.may_sign(directory_digest(dir@), given));
                assert(dir@.signature == crypto::hex_text(s@));
                Ok(dir)
            },
            Err(e) => {
                proof {
                    reveal_strlit("");
                    assert(unsigned.signature =~= ""@);
                }
                Err(e)
            },
        }
    }

    /// Verify the directory against `anchor` and that it is not past its `not_after` at
    /// `now`.
    ///
    /// # Errors
    /// `InvalidVcProof` on a wrong issuer, a bad signature, or expiry.
    pub fn verify_current(&self, anchor: &TrustAnchor, now: Timestamp) -> (r: Result<
        (),
        AgentCredsError,
    >)
        ensures
            did::unit_view(r) == directory_current(self@, anchor.did_text(), anchor.key(), now@),
    {
        signed::verify_anchor_signed(
            self.issuer_did.as_str(),
            self.digest().as_slice(),
            self.signature.as_str(),
            self.not_after,
            now,
            anchor,
            "approver directory",
        )
    }

    /// Look up a live approver by `approver_did`, rejecting an entry past its own
    /// `not_after` at `now`.
    pub fn lookup(&self, approver_did: &str, now: Timestamp) -> (r: Option<&ApproverEntry>)
        ensures
            match r {
                Some(e) => live_entry(self@.entries, approver_did@, now@) == Some(e@),
                None => live_entry(self@.entries, approver_did@, now@) is None,
            },
    {
        let ghost all = self@.entries;
        assert(all.skip(0) =~= all);
        for i in 0..self.entries.len()
            invariant
                all == self@.entries,
                live_entry(all, approver_did@, now@) == live_entry(
                    all.skip(i as int),
                    approver_did@,
                    now@,
                ),
        {
            let e = &self.entries[i];
            assert(all.skip(i as int)[0] == e@);
            assert(all.skip(i as int).skip(1) =~= all.skip(i + 1));
            let live = match e.not_after {
                Some(t) => !now.is_after(&t),
                None => true,
            };
            if live && text::str_eq(e.approver_did.as_str(), approver_did) {
                return Some(e);
            }
        }
        None
    }
}

// -- Approval evidence ---------------------------------------------------------------------------

/// The verifiable form of an approver's decision, bound to one exact action.
#[derive(Debug, PartialEq, Eq)]
pub struct ApprovalEvidence {
    /// Unique id of this approval decision, remembered to enforce one-time reliance.
    pub approval_id: String,
    /// The kind of gate that this evidence satisfies.
    pub kind: String,
    /// The action binding it is bound to.
    pub binding: String,
    /// Identifier of the accountable human approver (distinct from the agent).
    pub approver: String,
    /// Expiry, Unix seconds. Evidence at or after this instant is refused.
    pub expires_at: i64,
    /// Signature over the signing payload, hex-encoded.
    pub signature: String,
    /// The `did:key` of the approver whose key signed this evidence, or `None` where the
    /// anchor signed.
    pub approver_did: Option<String>,
}

/// Approval evidence as mathematical values.
#[verifier::ext_equal]
pub struct EvidenceView {
    pub approval_id: Seq<char>,
    pub kind: Seq<char>,
    pub binding: Seq<char>,
    pub approver: Seq<char>,
    pub expires_at: i64,
    pub signature: Seq<char>,
    pub approver_did: Option<Seq<char>>,
}

impl View for ApprovalEvidence {
    type V = EvidenceView;

    open spec fn view(&self) -> EvidenceView {
        EvidenceView {
            approval_id: self.approval_id@,
            kind: self.kind@,
            binding: self.binding@,
            approver: self.approver@,
            expires_at: self.expires_at,
            signature: self.signature@,
            approver_did: text::opt_view(self.approver_did),
        }
    }
}

impl Clone for ApprovalEvidence {
    fn clone(&self) -> (r: Self)
        ensures
            r@ == self@,
    {
        ApprovalEvidence {
            approval_id: self.approval_id.clone(),
            kind: self.kind.clone(),
            binding: self.binding.clone(),
            approver: self.approver.clone(),
            expires_at: self.expires_at,
            signature: self.signature.clone(),
            approver_did: text::opt_clone(&self.approver_did),
        }
    }
}

/// The bytes under the signature of approval evidence. Evidence signed by the anchor and
/// evidence signed by an approver's key are under different domain tags, and the latter
/// binds the approver's DID.
pub open spec fn evidence_bytes(e: EvidenceView) -> Seq<u8> {
    match e.approver_did {
        None => encoding::utf8("agentcreds-approval-evidence-v1"@) + encoding::text_field(
            e.approval_id,
        ) + encoding::text_field(e.kind) + encoding::text_field(e.binding) + encoding::text_field(
            e.approver,
        ) + encoding::le64_signed(e.expires_at),
        Some(d) => encoding::utf8("agentcreds-approval-evidence-key-v1"@) + encoding::text_field(
            e.approval_id,
        ) + encoding::text_field(e.kind) + encoding::text_field(e.binding) + encoding::text_field(
            e.approver,
        ) + encoding::text_field(d) + encoding::le64_signed(e.expires_at),
    }
}

/// The digest that approval evidence is signed over.
pub open spec fn evidence_digest(e: EvidenceView) -> Seq<u8> {
    crypto::sha256_digest(evidence_bytes(e))
}

/// Why evidence is not good for an action at a time, apart from its signature.
pub open spec fn evidence_unfit(e: EvidenceView, a: ActionView, now_unix: i64) -> Option<
    ErrorView,
> {
    if e.binding != action::approval_binding_of(a) {
        Some(signed::bad_proof("approval evidence is not bound to this action/principal"@))
    } else if now_unix >= e.expires_at {
        Some(signed::bad_proof("approval evidence has expired"@))
    } else {
        None
    }
}

/// What verifying evidence signed by an anchor gives.
pub open spec fn evidence_verifies(
    e: EvidenceView,
    a: ActionView,
    anchor_key: KeyView,
    now_unix: i64,
) -> Result<(), ErrorView> {
    match evidence_unfit(e, a, now_unix) {
        Some(err) => Err(err),
        None => match signed::decoded_signature(e.signature, "approval evidence"@) {
            Err(err) => Err(err),
            Ok(sig) => if did::key_verifies(anchor_key, evidence_digest(e), sig) is Ok {
                Ok(())
            } else {
                Err(signed::bad_proof("approval evidence signature does not verify"@))
            },
        },
    }
}

/// What verifying evidence signed by an approver's key gives, once the directory is known
/// to be current and the time to be one.
pub open spec fn keyed_evidence_verifies(
    e: EvidenceView,
    a: ActionView,
    entries: Seq<EntryView>,
    now: int,
    now_unix: i64,
    required_role: Option<Seq<char>>,
) -> Result<(), ErrorView> {
    match e.approver_did {
        None => Err(signed::bad_proof("evidence is not approver-key signed"@)),
        Some(d) => match live_entry(entries, d, now) {
            None => Err(signed::bad_proof("approver not enrolled or entry expired"@)),
            Some(entry) => if required_role is Some && !entry.roles.contains(required_role->0) {
                Err(
                    signed::bad_proof(
                        "approver lacks required role '"@ + required_role->0 + "'"@,
                    ),
                )
            } else {
                match evidence_unfit(e, a, now_unix) {
                    Some(err) => Err(err),
                    None => match did::did_key_of(d) {
                        Err(_) => Err(signed::bad_proof("approver DID holds no usable key"@)),
                        Ok(k) => match signed::decoded_signature(
                            e.signature,
                            "approval evidence"@,
                        ) {
                            Err(err) => Err(err),
                            Ok(sig) => if did::key_verifies(k, evidence_digest(e), sig) is Ok {
                                Ok(())
                            } else {
                                Err(
                                    signed::bad_proof(
                                        "approver-key evidence signature does not verify"@,
                                    ),
                                )
                            },
                        },
                    },
                }
            },
        },
    }
}

/// What verifying evidence against a directory gives.
pub open spec fn directory_evidence_verifies(
    e: EvidenceView,
    a: ActionView,
    d: DirectoryView,
    anchor_did: Seq<char>,
    anchor_key: KeyView,
    now_unix: i64,
    required_role: Option<Seq<char>>,
) -> Result<(), ErrorView> {
    if !(time::MIN_SECS <= now_unix <= time::MAX_SECS) {
        Err(signed::bad_proof("invalid timestamp"@))
    } else {
        let now = now_unix * time::NANOS_PER_SEC;
        match directory_current(d, anchor_did, anchor_key, now) {
            Err(err) => Err(err),
            Ok(_) => keyed_evidence_verifies(e, a, d.entries, now, now_unix, required_role),
        }
    }
}

/// The view of an optional borrowed text.
pub open spec fn opt_str_view(s: Option<&str>) -> Option<Seq<char>> {
    match s {
        Some(x) => Some(x@),
        None => None,
    }
}

impl ApprovalEvidence {
    fn signing_payload(&self) -> (r: Vec<u8>)
        ensures
            r@ == evidence_digest(self@),
    {
        let mut m: Vec<u8> = Vec::new();
        match &self.approver_did {
            None => {
                encoding::put_bytes(&mut m, "agentcreds-approval-evidence-v1".as_bytes());
                assert(m@ =~= encoding::utf8("agentcreds-approval-evidence-v1"@));
                encoding::put_text(&mut m, self.approval_id.as_str());
                encoding::put_text(&mut m, self.kind.as_str());
                encoding::put_text(&mut m, self.binding.as_str());
                encoding::put_text(&mut m, self.approver.as_str());
            },
            Some(d) => {
                encoding::put_bytes(&mut m, "agentcreds-approval-evidence-key-v1".as_bytes());
                assert(m@ =~= encoding::utf8("agentcreds-approval-evidence-key-v1"@));
                encoding::put_text(&mut m, self.approval_id.as_str());
                encoding::put_text(&mut m, self.kind.as_str());
                encoding::put_text(&mut m, self.binding.as_str());
                encoding::put_text(&mut m, self.approver.as_str());
                encoding::put_text(&mut m, d.as_str());
            },
        }
        encoding::put_i64(&mut m, self.expires_at);
        crypto::sha256(m.as_slice())
    }

    /// Mint signed approval evidence for `action`, decided by `approver`, valid until
    /// `expires_at` (Unix seconds) and signed by the organization `anchor`.
    ///
    /// # Errors
    /// Whatever the anchor's signer returns.
    pub fn approve(
        action: &Action,
        approver: &str,
        approval_id: &str,
        expires_at: i64,
        anchor: &TrustAnchor,
    ) -> (r: Result<Self, AgentCredsError>)
        ensures
            anchor.in_software() && anchor.key().algorithm is Ed25519 ==> r is Ok,
            r is Ok ==> {
                let e = r->Ok_0@;
                &&& e.approval_id == approval_id@
                &&& e.kind == "approval"@
                &&& e.binding == action::approval_binding_of(action@)
                &&& e.approver == approver@
                &&& e.expires_at == expires_at
                &&& e.approver_did is None
                &&& exists|sig: Result<Vec<u8>, AgentCredsError>|
                    #[trigger] anchor.may_sign(evidence_digest(e), sig) && sig is Ok && e.signature
                        == crypto::hex_text(sig->Ok_0@)
                &&& anchor.in_software() ==> forall|now_unix: i64|
                    now_unix < expires_at ==> #[trigger] evidence_verifies(
                        e,
                        action@,
                        anchor.key(),
                        now_unix,
                    ) is Ok
            },
            r is Err ==> anchor.may_sign(
                evidence_digest(
                    EvidenceView {
                        approval_id: approval_id@,
                        kind: "approval"@,
                        binding: action::approval_binding_of(action@),
                        approver: approver@,
                        expires_at,
                        signature: ""@,
                        approver_did: None,
                    },
                ),
                Err::<Vec<u8>, AgentCredsError>(r->Err_0),
            ),
    {
        let mut ev = ApprovalEvidence {
            approval_id: approval_id.to_owned(),
            kind: Gate::APPROVAL.to_owned(),
            binding: action.approval_binding(),
            approver: approver.to_owned(),
            expires_at,
            signature: String::new(),
            approver_did: None,
        };
        let payload = ev.signing_payload();
        let ghost unsigned = ev@;
        let answer = anchor.sign(payload.as_slice());
        let ghost given = answer;
        match answer {
            Ok(s) => {
                ev.signature = signed::encode_signature(s.as_slice());
                proof {
                    assert(evidence_bytes(ev@) == evidence_bytes(unsigned));
                    assert(anchor.may_sign(evidence_digest(ev@), given));
                    crypto::lemma_hex_round_trip(s@);
                }
                Ok(ev)
            },
            Err(e) => {
                proof {
                    reveal_strlit("");
                    assert(unsigned.signature =~= ""@);
                }
                Err(e)
            },
        }
    }

    /// Mint approver-key-signed evidence: the individual approver signs the action binding
    /// with their own key.
    ///
    /// # Errors
    /// `CryptoError` if the approver's P-256 signing reports an error.
    pub fn approve_by_key(
        action: &Action,
        approver_id: &str,
        approver: &AgentIdentity,
        approval_id: &str,
        expires_at: i64,
    ) -> (r: Result<Self, AgentCredsError>)
        ensures
            approver.key().algorithm is Ed25519 ==> r is Ok,
            r is Ok ==> {
                let e = r->Ok_0@;
                &&& e.approval_id == approval_id@
                &&& e.kind == "approval-key"@
                &&& e.binding == action::approval_binding_of(action@)
                &&& e.approver == approver_id@
                &&& e.expires_at == expires_at
                &&& e.approver_did == Some(approver.did_text())
                &&& exists|sig: Seq<u8>|
                    e.signature == #[trigger] crypto::hex_text(sig) && did::key_verifies(
                        approver.key(),
                        evidence_digest(e),
                        sig,
                    ) is Ok
            },
            r is Err ==> r->Err_0@ is CryptoError,
    {
        let mut ev = ApprovalEvidence {
            approval_id: approval_id.to_owned(),
            kind: Gate::APPROVAL_KEY.to_owned(),
            binding: action.approval_binding(),
            approver: approver_id.to_owned(),
            expires_at,
            signature: String::new(),
            approver_did: Some(approver.did().to_owned()),
        };
        let payload = ev.signing_payload();
        let ghost unsigned = ev@;
        match approver.sign(payload.as_slice()) {
            Ok(s) => {
                ev.signature = signed::encode_signature(s.as_slice());
                assert(evidence_bytes(ev@) == evidence_bytes(unsigned));
                assert(ev@.signature == crypto::hex_text(s@));
                Ok(ev)
            },
            Err(e) => Err(e),
        }
    }

    /// Whether evidence is bound to the action and not expired.
    fn check_fit(&self, action: &Action, now_unix: i64) -> (r: Result<(), AgentCredsError>)
        ensures
            match r {
                Ok(_) => evidence_unfit(self@, action@, now_unix) is None,
                Err(e) => evidence_unfit(self@, action@, now_unix) == Some(e@),
            },
    {
        if !text::str_eq(self.binding.as_str(), action.approval_binding().as_str()) {
            return Err(
                signed::proof_error(
                    "approval evidence is not bound to this action/principal".to_owned(),
                ),
            );
        }
        if now_unix >= self.expires_at {
            return Err(signed::proof_error("approval evidence has expired".to_owned()));
        }
        Ok(())
    }

    /// Verify the evidence offline against `anchor` for `action` at `now_unix`: its binding,
    /// its expiry and its signature.
    ///
    /// # Errors
    /// `InvalidVcProof` on a binding or expiry mismatch or a bad signature.
    pub fn verify(&self, action: &Action, anchor: &TrustAnchor, now_unix: i64) -> (r: Result<
        (),
        AgentCredsError,
    >)
        ensures
            did::unit_view(r) == evidence_verifies(self@, action@, anchor.key(), now_unix),
    {
        match self.check_fit(action, now_unix) {
            Ok(_) => {},
            Err(e) => {
                return Err(e);
            },
        }
        let sig = match signed::decode_signature(self.signature.as_str(), "approval evidence") {
            Ok(s) => s,
            Err(e) => {
                return Err(e);
            },
        };
        match anchor.verify_signature(self.signing_payload().as_slice(), sig.as_slice()) {
            Ok(_) => Ok(()),
            Err(_) => Err(
                signed::proof_error("approval evidence signature does not verify".to_owned()),
            ),
        }
    }

    /// Verify approver-key-signed evidence offline: the directory must verify under
    /// `anchor`, the signing approver must be a live entry of it, holding `required_role`
    /// where one is asked for, the binding and expiry must fit, and the signature must verify
    /// under the approver's own key.
    ///
    /// # Errors
    /// `InvalidVcProof` on any failure: directory, enrollment, role, binding, expiry, key or
    /// signature.
    pub fn verify_with_directory(
        &self,
        action: &Action,
        directory: &ApproverDirectory,
        anchor: &TrustAnchor,
        now_unix: i64,
        required_role: Option<&str>,
    ) -> (r: Result<(), AgentCredsError>)
        ensures
            did::unit_view(r) == directory_evidence_verifies(
                self@,
                action@,
                directory@,
                anchor.did_text(),
                anchor.key(),
                now_unix,
                opt_str_view(required_role),
            ),
    {
        let now = match Timestamp::from_unix(now_unix, 0) {
            Some(t) => t,
            None => {
                return Err(signed::proof_error("invalid timestamp".to_owned()));
            },
        };
        match directory.verify_current(anchor, now) {
            Ok(_) => {},
            Err(e) => {
                return Err(e);
            },
        }
        let approver_did = match &self.approver_did {
            Some(d) => d,
            None => {
                return Err(signed::proof_error("evidence is not approver-key signed".to_owned()));
            },
        };
        let entry = match directory.lookup(approver_did.as_str(), now) {
            Some(e) => e,
            None => {
                return Err(
                    signed::proof_error("approver not enrolled or entry expired".to_owned()),
                );
            },
        };
        if let Some(role) = required_role {
            if !strings::list_has(&entry.roles, role) {
                let mut reason = "approver lacks required role '".to_owned();
                reason.append(role);
                reason.append("'");
                return Err(signed::proof_error(reason));
            }
        }
        match self.check_fit(action, now_unix) {
            Ok(_) => {},
            Err(e) => {
                return Err(e);
            },
        }
        let key = match PublicKey::from_did_key(approver_did.as_str()) {
            Ok(k) => k,
            Err(_) => {
                return Err(signed::proof_error("approver DID holds no usable key".to_owned()));
            },
        };
        let sig = match signed::decode_signature(self.signature.as_str(), "approval evidence") {
            Ok(s) => s,
            Err(e) => {
                return Err(e);
            },
        };
        match key.verify(self.signing_payload().as_slice(), sig.as_slice()) {
            Ok(_) => Ok(()),
            Err(_) => Err(
                signed::proof_error("approver-key evidence signature does not verify".to_owned()),
            ),
        }
    }
}

/// Evidence signed by an approver's key is refused where the anchor's signature is asked for
/// to the extent that its bytes are never those of anchor evidence: the two domain tags make
/// them begin differently.
pub proof fn evidence_modes_are_separated(a: EvidenceView, b: EvidenceView)
    requires
        a.approver_did is None,
        b.approver_did is Some,
    ensures
        evidence_bytes(a) != evidence_bytes(b),
{
    reveal_strlit("agentcreds-approval-evidence-v1");
    reveal_strlit("agentcreds-approval-evidence-key-v1");
    let da = encoding::utf8("agentcreds-approval-evidence-v1"@);
    let db = encoding::utf8("agentcreds-approval-evidence-key-v1"@);
    vstd::utf8::is_ascii_chars_encode_utf8("agentcreds-approval-evidence-v1"@);
    vstd::utf8::is_ascii_chars_encode_utf8("agentcreds-approval-evidence-key-v1"@);
    assert(evidence_bytes(a)[29] == da[29]);
    assert(evidence_bytes(b)[29] == db[29]);
}

/// An approval does not carry over to another principal: evidence bound to one action is
/// unfit for an action on behalf of someone else, unless SHA-256 gives their different
/// bytes the same digest.
pub proof fn approval_is_bound_to_the_principal(
    e: EvidenceView,
    a: ActionView,
    b: ActionView,
    now_unix: i64,
)
    requires
        a.acting_for != b.acting_for,
        action::encodable(a.tool) && action::encodable(a.parameters) && action::encodable_opt(
            a.resource,
        ) && action::encodable_opt(a.acting_for),
        action::encodable(b.tool) && action::encodable(b.parameters) && action::encodable_opt(
            b.resource,
        ) && action::encodable_opt(b.acting_for),
        e.binding == action::approval_binding_of(a),
    ensures
        action::approval_bytes(a) != action::approval_bytes(b),
        crypto::sha256_digest(action::approval_bytes(a)) != crypto::sha256_digest(
            action::approval_bytes(b),
        ) ==> evidence_unfit(e, b, now_unix) is Some,
{
    if action::approval_bytes(a) == action::approval_bytes(b) {
        action::approval_bytes_are_injective(a, b);
    }
    crypto::lemma_hex_round_trip(crypto::sha256_digest(action::approval_bytes(a)));
    crypto::lemma_hex_round_trip(crypto::sha256_digest(action::approval_bytes(b)));
}

// -- One-time reliance -----------------------------------------------------------------------------

/// A relying party's record of approval evidence already relied upon for execution.
#[derive(Debug)]
pub struct ConsumedApprovals {
    seen: StringSet,
}

impl View for ConsumedApprovals {
    type V = Set<Seq<char>>;

    closed spec fn view(&self) -> Set<Seq<char>> {
        self.seen@
    }
}

impl ConsumedApprovals {
    /// A fresh, empty record.
    pub fn new() -> (r: Self)
        ensures
            r@ == Set::<Seq<char>>::empty(),
    {
        ConsumedApprovals { seen: StringSet::new() }
    }

    /// Record `approval_id` as relied upon. Returns `true` the first time and `false` on
    /// every subsequent call.
    pub fn try_consume(&mut self, approval_id: &str) -> (r: bool)
        ensures
            r == !old(self)@.contains(approval_id@),
            final(self)@ == old(self)@.insert(approval_id@),
    {
        self.seen.insert(approval_id.to_owned())
    }

    /// Whether `approval_id` has already been relied upon.
    pub fn contains(&self, approval_id: &str) -> (r: bool)
        ensures
            r == self@.contains(approval_id@),
    {
        self.seen.contains(approval_id)
    }
}

impl Default for ConsumedApprovals {
    fn default() -> (r: Self)
        ensures
            r@ == Set::<Seq<char>>::empty(),
    {
        Self::new()
    }
}

// -- What accepted evidence shows --------------------------------------------------------------------

/// Evidence that the anchor's key is asked for is accepted exactly where it is bound to the action
/// at hand, the time is before its expiry, and it carries the hex of a signature that verifies under
/// the anchor's key over its digest. Every refusal is `InvalidVcProof`.
pub proof fn accepted_evidence_is_for_the_action(
    e: EvidenceView,
    a: ActionView,
    anchor_key: KeyView,
    now_unix: i64,
)
    ensures
        evidence_verifies(e, a, anchor_key, now_unix) is Ok <==> {
            &&& e.binding == action::approval_binding_of(a)
            &&& now_unix < e.expires_at
            &&& crypto::is_hex(e.signature)
            &&& did::key_verifies(
                anchor_key,
                evidence_digest(e),
                crypto::hex_bytes(e.signature),
            ) is Ok
        },
        evidence_verifies(e, a, anchor_key, now_unix) is Err ==> evidence_verifies(
            e,
            a,
            anchor_key,
            now_unix,
        )->Err_0 is InvalidVcProof,
{
}

/// Looking an approver up gives the first entry of the directory that names the approver and is
/// not past its own end; where there is none, nothing.
pub proof fn a_lookup_gives_the_first_live_entry(
    entries: Seq<EntryView>,
    approver_did: Seq<char>,
    now: int,
)
    ensures
        match live_entry(entries, approver_did, now) {
            Some(e) => exists|i: int|
                {
                    &&& 0 <= i < entries.len()
                    &&& #[trigger] entries[i] == e
                    &&& e.approver_did == approver_did
                    &&& e.not_after matches Some(end) ==> now <= end
                    &&& forall|j: int|
                        0 <= j < i ==> (#[trigger] entries[j]).approver_did != approver_did || (
                        entries[j].not_after is Some && now > entries[j].not_after->0)
                },
            None => forall|j: int|
                0 <= j < entries.len() ==> (#[trigger] entries[j]).approver_did != approver_did || (
                entries[j].not_after is Some && now > entries[j].not_after->0),
        },
    decreases entries.len(),
{
    if entries.len() > 0 && !is_live_entry(entries[0], approver_did, now) {
        let rest = entries.skip(1);
        a_lookup_gives_the_first_live_entry(rest, approver_did, now);
        match live_entry(rest, approver_did, now) {
            Some(e) => {
                let i = choose|i: int|
                    {
                        &&& 0 <= i < rest.len()
                        &&& #[trigger] rest[i] == e
                        &&& e.approver_did == approver_did
                        &&& e.not_after matches Some(end) ==> now <= end
                        &&& forall|j: int|
                            0 <= j < i ==> (#[trigger] rest[j]).approver_did != approver_did || (
                            rest[j].not_after is Some && now > rest[j].not_after->0)
                    };
                assert(entries[i + 1] == e);
                assert forall|j: int| 0 <= j < i + 1 implies (
                #[trigger] entries[j]).approver_did != approver_did || (
                entries[j].not_after is Some && now > entries[j].not_after->0) by {
                    if j > 0 {
                        assert(rest[j - 1] == entries[j]);
                    }
                }
            },
            None => {
                assert forall|j: int| 0 <= j < entries.len() implies (
                #[trigger] entries[j]).approver_did != approver_did || (
                entries[j].not_after is Some && now > entries[j].not_after->0) by {
                    if j > 0 {
                        assert(rest[j - 1] == entries[j]);
                    }
                }
            },
        }
    } else if entries.len() > 0 {
        assert(entries[0] == live_entry(entries, approver_did, now)->0);
    }
}

/// Evidence that is accepted against a directory is an enrolled approver's, for the action at hand:
/// the directory is the anchor's and current, the approver's first live entry has the role that is
/// asked for, the evidence is bound to the action and not expired, and it is signed by the key that
/// the approver's own DID holds. Evidence of which all this holds is accepted.
pub proof fn evidence_accepted_by_a_directory_is_an_approvers(
    e: EvidenceView,
    a: ActionView,
    d: DirectoryView,
    anchor_did: Seq<char>,
    anchor_key: KeyView,
    now_unix: i64,
    required_role: Option<Seq<char>>,
)
    requires
        time::MIN_SECS <= now_unix <= time::MAX_SECS,
    ensures
        directory_evidence_verifies(
            e,
            a,
            d,
            anchor_did,
            anchor_key,
            now_unix,
            required_role,
        ) is Ok <==> {
            let now = now_unix * time::NANOS_PER_SEC;
            &&& d.issuer_did == anchor_did
            &&& crypto::is_hex(d.signature)
            &&& did::key_verifies(
                anchor_key,
                directory_digest(d),
                crypto::hex_bytes(d.signature),
            ) is Ok
            &&& d.not_after matches Some(end) ==> now <= end
            &&& e.approver_did is Some
            &&& live_entry(d.entries, e.approver_did->0, now) is Some
            &&& required_role matches Some(role) ==> live_entry(
                d.entries,
                e.approver_did->0,
                now,
            )->0.roles.contains(role)
            &&& e.binding == action::approval_binding_of(a)
            &&& now_unix < e.expires_at
            &&& did::did_key_of(e.approver_did->0) is Ok
            &&& crypto::is_hex(e.signature)
            &&& did::key_verifies(
                did::did_key_of(e.approver_did->0)->Ok_0,
                evidence_digest(e),
                crypto::hex_bytes(e.signature),
            ) is Ok
        },
{
}

/// A directory accepts no evidence at a time that no instant stands for, and refuses only with
/// `InvalidVcProof`.
pub proof fn a_directory_refuses_with_an_invalid_proof(
    e: EvidenceView,
    a: ActionView,
    d: DirectoryView,
    anchor_did: Seq<char>,
    anchor_key: KeyView,
    now_unix: i64,
    required_role: Option<Seq<char>>,
)
    ensures
        ({
            let r = directory_evidence_verifies(
                e,
                a,
                d,
                anchor_did,
                anchor_key,
                now_unix,
                required_role,
            );
            &&& !(time::MIN_SECS <= now_unix <= time::MAX_SECS) ==> r is Err
            &&& r is Err ==> r->Err_0 is InvalidVcProof
        }),
{
}

/// One piece of evidence approves one action: where it is accepted for two, at whatever times and
/// against whatever directories, they agree in tool, parameters, resource and principal, unless
/// SHA-256 fails on the two.
pub proof fn evidence_approves_one_action(
    e: EvidenceView,
    a: ActionView,
    b: ActionView,
    d: DirectoryView,
    f: DirectoryView,
    anchor_did: Seq<char>,
    anchor_key: KeyView,
    now_unix: i64,
    later: i64,
    required_role: Option<Seq<char>>,
)
    requires
        action::fits(a),
        action::fits(b),
        directory_evidence_verifies(
            e,
            a,
            d,
            anchor_did,
            anchor_key,
            now_unix,
            required_role,
        ) is Ok || evidence_verifies(e, a, anchor_key, now_unix) is Ok,
        directory_evidence_verifies(
            e,
            b,
            f,
            anchor_did,
            anchor_key,
            later,
            required_role,
        ) is Ok || evidence_verifies(e, b, anchor_key, later) is Ok,
    ensures
        now_unix < e.expires_at,
        later < e.expires_at,
        (a.tool == b.tool && a.parameters == b.parameters && a.resource == b.resource
            && a.acting_for == b.acting_for) || crypto::breaks_on(
            set![action::approval_bytes(a), action::approval_bytes(b)],
        ),
{
    action::an_approval_binding_stands_for_one_action(a, b);
}

// -- What signatures over approvals bind ---------------------------------------------------------------

/// Whether evidence fits the machine.
pub open spec fn evidence_fits(e: EvidenceView) -> bool {
    &&& encoding::utf8(e.approval_id).len() <= u64::MAX
    &&& encoding::utf8(e.kind).len() <= u64::MAX
    &&& encoding::utf8(e.binding).len() <= u64::MAX
    &&& encoding::utf8(e.approver).len() <= u64::MAX
    &&& e.approver_did is Some ==> encoding::utf8(e.approver_did->0).len() <= u64::MAX
}

spec fn evidence_tail(e: EvidenceView) -> Seq<u8> {
    match e.approver_did {
        None => encoding::le64_signed(e.expires_at),
        Some(d) => encoding::text_field(d) + encoding::le64_signed(e.expires_at),
    }
}

spec fn evidence_tag(e: EvidenceView) -> Seq<u8> {
    match e.approver_did {
        None => encoding::utf8("agentcreds-approval-evidence-v1"@),
        Some(_) => encoding::utf8("agentcreds-approval-evidence-key-v1"@),
    }
}

proof fn lemma_evidence_nested(e: EvidenceView)
    ensures
        evidence_bytes(e) == evidence_tag(e) + (encoding::text_field(e.approval_id) + (
        encoding::text_field(e.kind) + (encoding::text_field(e.binding) + (encoding::text_field(
            e.approver,
        ) + evidence_tail(e))))),
{
    let p1 = evidence_tag(e);
    let p2 = encoding::text_field(e.approval_id);
    let p3 = encoding::text_field(e.kind);
    let p4 = encoding::text_field(e.binding);
    let p5 = encoding::text_field(e.approver);
    match e.approver_did {
        None => {},
        Some(d) => {
            encoding::lemma_assoc(
                p1 + p2 + p3 + p4 + p5,
                encoding::text_field(d),
                encoding::le64_signed(e.expires_at),
            );
        },
    }
    encoding::lemma_assoc_six(p1, p2, p3, p4, p5, evidence_tail(e));
}

/// An evidence digest binds all that the evidence says: evidence with one digest has the same
/// identifier, kind, binding, approver, expiry and signer, unless SHA-256 fails on the two. So a
/// signature over one piece of evidence covers no other.
pub proof fn an_evidence_digest_binds_the_whole_evidence(a: EvidenceView, b: EvidenceView)
    requires
        evidence_fits(a),
        evidence_fits(b),
        evidence_digest(a) == evidence_digest(b),
    ensures
        a == (EvidenceView { signature: a.signature, ..b }) || crypto::breaks_on(
            set![evidence_bytes(a), evidence_bytes(b)],
        ),
{
    let inputs = set![evidence_bytes(a), evidence_bytes(b)];
    if !crypto::breaks_on(inputs) {
        assert(inputs.contains(evidence_bytes(a)) && inputs.contains(evidence_bytes(b)));
        if a.approver_did is None && b.approver_did is Some {
            evidence_modes_are_separated(a, b);
        }
        if a.approver_did is Some && b.approver_did is None {
            evidence_modes_are_separated(b, a);
        }
        lemma_evidence_nested(a);
        lemma_evidence_nested(b);
        let none = Seq::<u8>::empty();
        let (d, t_a, t_b) = (evidence_tag(a), evidence_tail(a), evidence_tail(b));
        let (p_a, p_b) = (
            encoding::text_field(a.approver) + t_a,
            encoding::text_field(b.approver) + t_b,
        );
        let (b_a, b_b) = (
            encoding::text_field(a.binding) + p_a,
            encoding::text_field(b.binding) + p_b,
        );
        let (k_a, k_b) = (
            encoding::text_field(a.kind) + b_a,
            encoding::text_field(b.kind) + b_b,
        );
        encoding::lemma_split(
            d,
            d,
            encoding::text_field(a.approval_id) + k_a,
            encoding::text_field(b.approval_id) + k_b,
        );
        encoding::lemma_text_field_prefix(a.approval_id, b.approval_id, k_a, k_b);
        encoding::lemma_text_field_prefix(a.kind, b.kind, b_a, b_b);
        encoding::lemma_text_field_prefix(a.binding, b.binding, p_a, p_b);
        encoding::lemma_text_field_prefix(a.approver, b.approver, t_a, t_b);
        let (e_a, e_b) = (
            encoding::le64_signed(a.expires_at),
            encoding::le64_signed(b.expires_at),
        );
        if a.approver_did is Some {
            encoding::lemma_text_field_prefix(a.approver_did->0, b.approver_did->0, e_a, e_b);
        }
        assert(e_a + none =~= e_a);
        assert(e_b + none =~= e_b);
        encoding::lemma_le64_signed_prefix(a.expires_at, b.expires_at, none, none);
    }
}

/// Whether an entry fits the machine.
pub open spec fn entry_fits(e: EntryView) -> bool {
    &&& encoding::utf8(e.approver_id).len() <= u64::MAX
    &&& encoding::utf8(e.approver_did).len() <= u64::MAX
    &&& e.roles.len() <= u64::MAX
    &&& forall|i: int| 0 <= i < e.roles.len() ==> encoding::utf8(#[trigger] e.roles[i]).len() <= u64::MAX
    &&& e.not_after is Some ==> time::time_in_range(e.not_after->0)
}

/// Whether a directory fits the machine.
pub open spec fn directory_fits(d: DirectoryView) -> bool {
    &&& time::time_in_range(d.generated_at)
    &&& encoding::utf8(d.issuer_did).len() <= u64::MAX
    &&& d.not_after is Some ==> time::time_in_range(d.not_after->0)
    &&& forall|i: int| 0 <= i < d.entries.len() ==> entry_fits(#[trigger] d.entries[i])
}

/// Whether two optional instants are both absent or fall in the same second.
pub open spec fn same_second(a: Option<int>, b: Option<int>) -> bool {
    match (a, b) {
        (Some(x), Some(y)) => time::second_of(x) == time::second_of(y),
        (None, None) => true,
        _ => false,
    }
}

/// Whether two entries say the same, their ends to the second.
pub open spec fn same_entry(a: EntryView, b: EntryView) -> bool {
    &&& a.approver_id == b.approver_id
    &&& a.approver_did == b.approver_did
    &&& a.roles == b.roles
    &&& same_second(a.not_after, b.not_after)
}

proof fn lemma_opt_second_prefix(a: Option<int>, b: Option<int>, x: Seq<u8>, y: Seq<u8>)
    requires
        a is Some ==> time::time_in_range(a->0),
        b is Some ==> time::time_in_range(b->0),
        opt_second_bytes(a) + x == opt_second_bytes(b) + y,
    ensures
        same_second(a, b),
        x == y,
{
    let (l, r) = (opt_second_bytes(a) + x, opt_second_bytes(b) + y);
    assert(l[0] == r[0]);
    match (a, b) {
        (Some(p), Some(q)) => {
            let (m, n) = (time::second_of(p) as i64, time::second_of(q) as i64);
            assert(l.skip(1) =~= encoding::le64_signed(m) + x);
            assert(r.skip(1) =~= encoding::le64_signed(n) + y);
            encoding::lemma_le64_signed_prefix(m, n, x, y);
        },
        (None, None) => {
            assert(l.skip(1) =~= x);
            assert(r.skip(1) =~= y);
        },
        (Some(p), None) => {
            assert(l[0] == 1u8 && r[0] == 0u8);
        },
        (None, Some(q)) => {
            assert(l[0] == 0u8 && r[0] == 1u8);
        },
    }
}

proof fn lemma_entry_prefix(a: EntryView, b: EntryView, x: Seq<u8>, y: Seq<u8>)
    requires
        entry_fits(a),
        entry_fits(b),
        entry_bytes(a) + x == entry_bytes(b) + y,
    ensures
        same_entry(a, b),
        x == y,
{
    let (i_a, i_b) = (encoding::text_field(a.approver_id), encoding::text_field(b.approver_id));
    let (d_a, d_b) = (encoding::text_field(a.approver_did), encoding::text_field(b.approver_did));
    let (m, n) = (a.roles.len() as u64, b.roles.len() as u64);
    let (r_a, r_b) = (encoding::text_fields(a.roles), encoding::text_fields(b.roles));
    let (t_a, t_b) = (opt_second_bytes(a.not_after), opt_second_bytes(b.not_after));
    encoding::lemma_assoc_six(i_a, d_a, encoding::le64(m), r_a, t_a, x);
    encoding::lemma_assoc_six(i_b, d_b, encoding::le64(n), r_b, t_b, y);
    let (u_a, u_b) = (r_a + (t_a + x), r_b + (t_b + y));
    let (v_a, v_b) = (encoding::le64(m) + u_a, encoding::le64(n) + u_b);
    encoding::lemma_text_field_prefix(a.approver_id, b.approver_id, d_a + v_a, d_b + v_b);
    encoding::lemma_text_field_prefix(a.approver_did, b.approver_did, v_a, v_b);
    encoding::lemma_le64_prefix(m, n, u_a, u_b);
    encoding::lemma_text_fields_prefix(a.roles, b.roles, t_a + x, t_b + y);
    lemma_opt_second_prefix(a.not_after, b.not_after, x, y);
}

proof fn lemma_entries_front(v: Seq<EntryView>)
    requires
        v.len() > 0,
    ensures
        entries_bytes(v) == entry_bytes(v[0]) + entries_bytes(v.skip(1)),
    decreases v.len(),
{
    if v.len() == 1 {
        assert(v.drop_last() =~= Seq::<EntryView>::empty());
        assert(v.skip(1) =~= Seq::<EntryView>::empty());
        assert(entries_bytes(v.drop_last()) =~= Seq::<u8>::empty());
        assert(entries_bytes(v) =~= entry_bytes(v.last()));
        assert(entry_bytes(v[0]) + entries_bytes(v.skip(1)) =~= entry_bytes(v[0]));
    } else {
        let p = v.drop_last();
        lemma_entries_front(p);
        assert(v.skip(1).drop_last() =~= p.skip(1));
        encoding::lemma_assoc(entry_bytes(v[0]), entries_bytes(p.skip(1)), entry_bytes(v.last()));
    }
}

proof fn lemma_entries(a: Seq<EntryView>, b: Seq<EntryView>, x: Option<int>, y: Option<int>)
    requires
        forall|i: int| 0 <= i < a.len() ==> entry_fits(#[trigger] a[i]),
        forall|i: int| 0 <= i < b.len() ==> entry_fits(#[trigger] b[i]),
        x is Some ==> time::time_in_range(x->0),
        y is Some ==> time::time_in_range(y->0),
        entries_bytes(a) + opt_second_bytes(x) == entries_bytes(b) + opt_second_bytes(y),
    ensures
        a.len() == b.len(),
        forall|i: int| 0 <= i < a.len() ==> same_entry(#[trigger] a[i], b[i]),
        same_second(x, y),
    decreases a.len() + b.len(),
{
    let none = Seq::<u8>::empty();
    let (t_a, t_b) = (opt_second_bytes(x), opt_second_bytes(y));
    vstd::bytes::lemma_auto_spec_u64_to_from_le_bytes();
    assert(t_a.len() <= 9 && t_b.len() <= 9);
    if a.len() > 0 {
        lemma_entries_front(a);
        assert(entry_bytes(a[0]).len() >= 24) by {
            assert(encoding::text_field(a[0].approver_id).len() >= 8);
            assert(encoding::text_field(a[0].approver_did).len() >= 8);
            assert(encoding::le64(a[0].roles.len() as u64).len() == 8);
        }
        encoding::lemma_assoc(entry_bytes(a[0]), entries_bytes(a.skip(1)), t_a);
    } else {
        assert(entries_bytes(a) + t_a =~= t_a);
    }
    if b.len() > 0 {
        lemma_entries_front(b);
        assert(entry_bytes(b[0]).len() >= 24) by {
            assert(encoding::text_field(b[0].approver_id).len() >= 8);
            assert(encoding::text_field(b[0].approver_did).len() >= 8);
            assert(encoding::le64(b[0].roles.len() as u64).len() == 8);
        }
        encoding::lemma_assoc(entry_bytes(b[0]), entries_bytes(b.skip(1)), t_b);
    } else {
        assert(entries_bytes(b) + t_b =~= t_b);
    }
    if a.len() > 0 && b.len() > 0 {
        let (p, q) = (a.skip(1), b.skip(1));
        lemma_entry_prefix(a[0], b[0], entries_bytes(p) + t_a, entries_bytes(q) + t_b);
        assert forall|i: int| 0 <= i < p.len() implies entry_fits(#[trigger] p[i]) by {
            assert(a[i + 1] == p[i]);
        }
        assert forall|i: int| 0 <= i < q.len() implies entry_fits(#[trigger] q[i]) by {
            assert(b[i + 1] == q[i]);
        }
        lemma_entries(p, q, x, y);
        assert forall|i: int| 0 <= i < a.len() implies same_entry(#[trigger] a[i], b[i]) by {
            if i > 0 {
                assert(same_entry(p[i - 1], q[i - 1]));
            }
        }
    } else if a.len() == 0 && b.len() == 0 {
        assert(t_a + none =~= t_a);
        assert(t_b + none =~= t_b);
        lemma_opt_second_prefix(x, y, none, none);
    } else if a.len() > 0 {
        assert((entries_bytes(a) + t_a).len() >= 24);
        assert((entries_bytes(b) + t_b).len() <= 9);
    } else {
        assert((entries_bytes(b) + t_b).len() >= 24);
        assert((entries_bytes(a) + t_a).len() <= 9);
    }
}

/// A directory's digest binds all that it holds: directories with one digest have the same version,
/// issuer and approvers, each with the same identifier, DID, roles and end, and were made and end in
/// the same seconds, unless SHA-256 fails on the two. So nobody can be enrolled in a signed directory
/// or given a role in it unseen.
pub proof fn a_directory_digest_binds_its_entries(a: DirectoryView, b: DirectoryView)
    requires
        directory_fits(a),
        directory_fits(b),
        directory_digest(a) == directory_digest(b),
    ensures
        ({
            &&& a.version == b.version
            &&& time::second_of(a.generated_at) == time::second_of(b.generated_at)
            &&& a.issuer_did == b.issuer_did
            &&& a.entries.len() == b.entries.len()
            &&& forall|i: int|
                0 <= i < a.entries.len() ==> same_entry(#[trigger] a.entries[i], b.entries[i])
            &&& same_second(a.not_after, b.not_after)
        }) || crypto::breaks_on(set![directory_bytes(a), directory_bytes(b)]),
{
    let inputs = set![directory_bytes(a), directory_bytes(b)];
    if !crypto::breaks_on(inputs) {
        assert(inputs.contains(directory_bytes(a)) && inputs.contains(directory_bytes(b)));
        let d = encoding::utf8("agentcreds-approver-directory-v1"@);
        let (m, n) = (time::second_of(a.generated_at) as i64, time::second_of(b.generated_at) as i64);
        let (g_a, g_b) = (encoding::le64_signed(m), encoding::le64_signed(n));
        let (i_a, i_b) = (encoding::text_field(a.issuer_did), encoding::text_field(b.issuer_did));
        let (e_a, e_b) = (entries_bytes(a.entries), entries_bytes(b.entries));
        let (t_a, t_b) = (opt_second_bytes(a.not_after), opt_second_bytes(b.not_after));
        encoding::lemma_assoc_six(d, encoding::le64(a.version), g_a, i_a, e_a, t_a);
        encoding::lemma_assoc_six(d, encoding::le64(b.version), g_b, i_b, e_b, t_b);
        let (u_a, u_b) = (i_a + (e_a + t_a), i_b + (e_b + t_b));
        encoding::lemma_split(
            d,
            d,
            encoding::le64(a.version) + (g_a + u_a),
            encoding::le64(b.version) + (g_b + u_b),
        );
        encoding::lemma_le64_prefix(a.version, b.version, g_a + u_a, g_b + u_b);
        encoding::lemma_le64_signed_prefix(m, n, u_a, u_b);
        encoding::lemma_text_field_prefix(a.issuer_did, b.issuer_did, e_a + t_a, e_b + t_b);
        lemma_entries(a.entries, b.entries, a.not_after, b.not_after);
    }
}

/// The entries of a directory are in the order of their identifiers, and none is lost or made up.
pub proof fn entries_are_in_the_order_of_their_ids(v: Seq<EntryView>, i: int, j: int)
    requires
        0 <= i < j < by_id(v).len(),
    ensures
        by_id(v).len() == v.len(),
        !strings::lex_lt(by_id(v)[j].approver_id, by_id(v)[i].approver_id),
{
    entries_are_sorted_and_kept(v);
    assert(by_id(v).to_multiset().len() == v.to_multiset().len());
    by_id(v).to_multiset_ensures();
    v.to_multiset_ensures();
}

} // verus!
