//! The merging of several organisations' commitments into one chain of custody.

use vstd::prelude::*;
use vstd::string::*;
use crate::audit;
use crate::audit::{AuditCommitment, AuditRecord, CommitmentView, RecordView};
use crate::crypto;
use crate::did::{KeyView, TrustAnchor};
use crate::encoding;
use crate::error::{AgentCredsError, ErrorView};
use crate::signed;
use crate::strings;
use crate::text;
use crate::time;
use crate::time::Timestamp;

verus! {

// -- Entries --------------------------------------------------------------------------------------------

/// One entry in the merged chain of custody (no raw payload).
#[derive(Debug)]
pub struct CompositeEntry {
    /// The organisation that produced this entry.
    pub org_id: String,
    /// That organisation's sequence number.
    pub seq: u64,
    /// When the action occurred.
    pub timestamp: Timestamp,
    /// The commitment hash.
    pub commitment: String,
}

/// An entry as mathematical values.
#[verifier::ext_equal]
pub struct EntryView {
    pub org_id: Seq<char>,
    pub seq: u64,
    pub timestamp: int,
    pub commitment: Seq<char>,
}

impl View for CompositeEntry {
    type V = EntryView;

    open spec fn view(&self) -> EntryView {
        EntryView {
            org_id: self.org_id@,
            seq: self.seq,
            timestamp: self.timestamp@,
            commitment: self.commitment@,
        }
    }
}

impl Clone for CompositeEntry {
    fn clone(&self) -> (r: Self)
        ensures
            r@ == self@,
    {
        CompositeEntry {
            org_id: self.org_id.clone(),
            seq: self.seq,
            timestamp: self.timestamp,
            commitment: self.commitment.clone(),
        }
    }
}

/// The views of some entries.
pub open spec fn entries_view(v: Seq<CompositeEntry>) -> Seq<EntryView> {
    v.map_values(|e: CompositeEntry| e@)
}

/// Copies some entries.
pub fn clone_entries(v: &Vec<CompositeEntry>) -> (r: Vec<CompositeEntry>)
    ensures
        entries_view(r@) == entries_view(v@),
{
    let mut out: Vec<CompositeEntry> = Vec::new();
    for i in 0..v.len()
        invariant
            out@.len() == i,
            forall|j: int| 0 <= j < i ==> (#[trigger] out@[j])@ == v@[j]@,
    {
        out.push(v[i].clone());
    }
    assert(entries_view(out@) =~= entries_view(v@));
    out
}

/// The order of the chain: by time, then by organisation, then by sequence number.
pub open spec fn entry_lt(a: EntryView, b: EntryView) -> bool {
    ||| a.timestamp < b.timestamp
    ||| a.timestamp == b.timestamp && strings::lex_lt(a.org_id, b.org_id)
    ||| a.timestamp == b.timestamp && a.org_id == b.org_id && a.seq < b.seq
}

/// Whether two entries stand for the same place in the same log.
pub open spec fn same_slot(a: EntryView, b: EntryView) -> bool {
    a.org_id == b.org_id && a.seq == b.seq
}

/// Whether a chain is ordered, with one entry at most for each place in each log.
pub open spec fn is_chain(v: Seq<EntryView>) -> bool {
    &&& forall|i: int, j: int|
        0 <= i < j < v.len() ==> entry_lt(#[trigger] v[i], #[trigger] v[j])
    &&& forall|i: int, j: int|
        0 <= i < j < v.len() ==> !same_slot(#[trigger] v[i], #[trigger] v[j])
}

fn comes_before(a: &CompositeEntry, b: &CompositeEntry) -> (r: bool)
    ensures
        r == entry_lt(a@, b@),
{
    proof {
        strings::lemma_lex_irreflexive(a@.org_id);
    }
    if b.timestamp.is_after(&a.timestamp) {
        true
    } else if a.timestamp.is_after(&b.timestamp) {
        false
    } else if strings::str_lt(a.org_id.as_str(), b.org_id.as_str()) {
        true
    } else {
        text::str_eq(a.org_id.as_str(), b.org_id.as_str()) && a.seq < b.seq
    }
}

/// A chain with one more entry put where it belongs.
pub open spec fn placed(v: Seq<EntryView>, e: EntryView) -> Seq<EntryView>
    decreases v.len(),
{
    if v.len() > 0 && entry_lt(e, v.last()) {
        placed(v.drop_last(), e).push(v.last())
    } else {
        v.push(e)
    }
}

proof fn lemma_placed(v: Seq<EntryView>, e: EntryView, i: int)
    requires
        0 <= i <= v.len(),
        i > 0 ==> !entry_lt(e, v[i - 1]),
        forall|j: int| i <= j < v.len() ==> entry_lt(e, #[trigger] v[j]),
    ensures
        placed(v, e) == v.insert(i, e),
    decreases v.len(),
{
    if v.len() > 0 && entry_lt(e, v.last()) {
        assert(i < v.len());
        let w = v.drop_last();
        assert forall|j: int| i <= j < w.len() implies entry_lt(e, #[trigger] w[j]) by {
            assert(w[j] == v[j]);
        }
        lemma_placed(w, e, i);
        assert(placed(v, e) =~= v.insert(i, e));
    } else {
        if i < v.len() {
            assert(entry_lt(e, v[v.len() - 1]));
        }
        assert(placed(v, e) =~= v.insert(i, e));
    }
}

proof fn lemma_order(a: EntryView, b: EntryView, c: EntryView)
    ensures
        entry_lt(a, b) && entry_lt(b, c) ==> entry_lt(a, c),
        !entry_lt(a, a),
        entry_lt(a, b) || entry_lt(b, a) || same_slot(a, b),
{
    strings::lemma_lex_irreflexive(a.org_id);
    strings::lemma_lex_total(a.org_id, b.org_id);
    if strings::lex_lt(a.org_id, b.org_id) && strings::lex_lt(b.org_id, c.org_id) {
        strings::lemma_lex_transitive(a.org_id, b.org_id, c.org_id);
    }
}

/// Placing an entry for a place that is not taken keeps the chain ordered, and adds the entry
/// and nothing else.
proof fn lemma_placed_is_chain(v: Seq<EntryView>, e: EntryView)
    requires
        is_chain(v),
        forall|j: int| 0 <= j < v.len() ==> !same_slot(e, #[trigger] v[j]),
    ensures
        is_chain(placed(v, e)),
        forall|x: EntryView| #[trigger] placed(v, e).contains(x) <==> v.contains(x) || x == e,
    decreases v.len(),
{
    let p = placed(v, e);
    if v.len() > 0 && entry_lt(e, v.last()) {
        let w = v.drop_last();
        let q = placed(w, e);
        assert(is_chain(w)) by {
            assert forall|i: int, j: int| 0 <= i < j < w.len() implies entry_lt(
                #[trigger] w[i],
                #[trigger] w[j],
            ) && !same_slot(w[i], w[j]) by {
                assert(w[i] == v[i] && w[j] == v[j]);
            }
        }
        assert forall|j: int| 0 <= j < w.len() implies !same_slot(e, #[trigger] w[j]) by {
            assert(w[j] == v[j]);
        }
        lemma_placed_is_chain(w, e);
        let last = v.last();
        assert forall|i: int| 0 <= i < q.len() implies entry_lt(#[trigger] q[i], last)
            && !same_slot(q[i], last) by {
            assert(q.contains(q[i]));
            if q[i] != e {
                let k = choose|k: int| 0 <= k < w.len() && w[k] == q[i];
                assert(v[k] == q[i]);
            }
        }
        assert forall|i: int, j: int| 0 <= i < j < p.len() implies entry_lt(
            #[trigger] p[i],
            #[trigger] p[j],
        ) && !same_slot(p[i], p[j]) by {
            assert(p[i] == q[i]);
            if j < q.len() {
                assert(p[j] == q[j]);
            }
        }
        assert forall|x: EntryView| #[trigger] p.contains(x) <==> v.contains(x) || x == e by {
            if p.contains(x) {
                let k = choose|k: int| 0 <= k < p.len() && p[k] == x;
                if k < q.len() {
                    assert(q[k] == x);
                    assert(q.contains(x));
                    if x != e {
                        let m = choose|m: int| 0 <= m < w.len() && w[m] == x;
                        assert(v[m] == x);
                    }
                } else {
                    assert(v[v.len() - 1] == x);
                }
            }
            if v.contains(x) || x == e {
                if x == last {
                    assert(p[p.len() - 1] == x);
                } else {
                    if x != e {
                        let m = choose|m: int| 0 <= m < v.len() && v[m] == x;
                        assert(w[m] == x);
                    }
                    assert(q.contains(x));
                    let k = choose|k: int| 0 <= k < q.len() && q[k] == x;
                    assert(p[k] == x);
                }
            }
        }
    } else {
        assert forall|i: int| 0 <= i < v.len() implies entry_lt(#[trigger] v[i], e) by {
            let last = v[v.len() - 1];
            lemma_order(e, last, last);
            lemma_order(v[i], last, e);
            if i < v.len() - 1 {
                assert(entry_lt(v[i], last));
            }
        }
        assert forall|x: EntryView| #[trigger] p.contains(x) <==> v.contains(x) || x == e by {
            if v.contains(x) {
                let k = choose|k: int| 0 <= k < v.len() && v[k] == x;
                assert(p[k] == x);
            }
            if x == e {
                assert(p[v.len() as int] == x);
            }
            if p.contains(x) && x != e {
                let k = choose|k: int| 0 <= k < p.len() && p[k] == x;
                assert(v[k] == x);
            }
        }
    }
}

/// The first entry for a place in a log.
pub open spec fn held(v: Seq<EntryView>, org_id: Seq<char>, seq: u64) -> Option<EntryView>
    decreases v.len(),
{
    if v.len() == 0 {
        None
    } else {
        match held(v.drop_last(), org_id, seq) {
            Some(e) => Some(e),
            None => if v.last().org_id == org_id && v.last().seq == seq {
                Some(v.last())
            } else {
                None
            },
        }
    }
}

proof fn lemma_held(v: Seq<EntryView>, org_id: Seq<char>, seq: u64)
    ensures
        match held(v, org_id, seq) {
            Some(e) => v.contains(e) && e.org_id == org_id && e.seq == seq,
            None => forall|i: int|
                0 <= i < v.len() ==> !((#[trigger] v[i]).org_id == org_id && v[i].seq == seq),
        },
    decreases v.len(),
{
    if v.len() > 0 {
        let w = v.drop_last();
        lemma_held(w, org_id, seq);
        match held(w, org_id, seq) {
            Some(e) => {
                let k = choose|k: int| 0 <= k < w.len() && w[k] == e;
                assert(v[k] == e);
            },
            None => {
                assert forall|i: int| 0 <= i < v.len() - 1 implies !((
                #[trigger] v[i]).org_id == org_id && v[i].seq == seq) by {
                    assert(w[i] == v[i]);
                }
                assert(v[v.len() - 1] == v.last());
            },
        }
    }
}

// -- The chain --------------------------------------------------------------------------------------------

/// An ordered chain of entries.
#[derive(Debug)]
struct Chain {
    entries: Vec<CompositeEntry>,
}

impl Chain {
    #[verifier::type_invariant]
    spec fn ordered(self) -> bool {
        is_chain(entries_view(self.entries@))
    }

    fn find(&self, org_id: &str, seq: u64) -> (r: Option<usize>)
        ensures
            match r {
                Some(i) => i < self.entries@.len() && held(
                    entries_view(self.entries@),
                    org_id@,
                    seq,
                ) == Some(self.entries@[i as int]@),
                None => held(entries_view(self.entries@), org_id@, seq) is None,
            },
    {
        let ghost v = entries_view(self.entries@);
        for i in 0..self.entries.len()
            invariant
                v == entries_view(self.entries@),
                held(v.take(i as int), org_id@, seq) is None,
        {
            let e = &self.entries[i];
            assert(v.take(i + 1).drop_last() =~= v.take(i as int));
            assert(v.take(i + 1).last() == e@);
            if text::str_eq(e.org_id.as_str(), org_id) && e.seq == seq {
                proof {
                    lemma_held_prefix(v, i + 1, org_id@, seq);
                }
                return Some(i);
            }
        }
        assert(v.take(v.len() as int) =~= v);
        None
    }

    fn with(self, e: CompositeEntry) -> (r: Chain)
        requires
            held(entries_view(self.entries@), e@.org_id, e@.seq) is None,
        ensures
            entries_view(r.entries@) == placed(entries_view(self.entries@), e@),
    {
        proof {
            use_type_invariant(&self);
        }
        let ghost v = entries_view(self.entries@);
        let ghost x = e@;
        let mut entries = self.entries;
        let mut i: usize = entries.len();
        while i > 0 && comes_before(&e, &entries[i - 1])
            invariant
                i <= entries@.len(),
                v == entries_view(entries@),
                x == e@,
                forall|j: int| i <= j < v.len() ==> entry_lt(x, #[trigger] v[j]),
            decreases i,
        {
            assert(v[i - 1] == entries@[i - 1]@);
            i = i - 1;
        }
        proof {
            if i > 0 {
                assert(v[i - 1] == entries@[i - 1]@);
            }
            lemma_placed(v, x, i as int);
            lemma_held(v, x.org_id, x.seq);
            lemma_placed_is_chain(v, x);
        }
        entries.insert(i, e);
        assert(entries_view(entries@) =~= v.insert(i as int, x));
        Chain { entries }
    }
}

proof fn lemma_held_prefix(v: Seq<EntryView>, n: int, org_id: Seq<char>, seq: u64)
    requires
        0 <= n <= v.len(),
        held(v.take(n), org_id, seq) is Some,
    ensures
        held(v, org_id, seq) == held(v.take(n), org_id, seq),
    decreases v.len(),
{
    if n < v.len() {
        assert(v.drop_last().take(n) =~= v.take(n));
        lemma_held_prefix(v.drop_last(), n, org_id, seq);
    } else {
        assert(v.take(n) =~= v);
    }
}

/// Merges several organisations' [`AuditCommitment`]s into one verifiable, ordered chain of
/// custody for a single correlation id - without seeing raw logs.
#[derive(Debug)]
pub struct AuditCompositor {
    correlation_id: String,
    chain: Chain,
}

impl Clone for AuditCompositor {
    fn clone(&self) -> (r: Self)
        ensures
            r@ == self@,
    {
        proof {
            use_type_invariant(&self.chain);
        }
        let entries = clone_entries(&self.chain.entries);
        AuditCompositor { correlation_id: self.correlation_id.clone(), chain: Chain { entries } }
    }
}

/// A compositor as mathematical values.
#[verifier::ext_equal]
pub struct CompositorView {
    pub correlation_id: Seq<char>,
    pub entries: Seq<EntryView>,
}

impl View for AuditCompositor {
    type V = CompositorView;

    closed spec fn view(&self) -> CompositorView {
        CompositorView {
            correlation_id: self.correlation_id@,
            entries: entries_view(self.chain.entries@),
        }
    }
}

/// The entry that a commitment becomes.
pub open spec fn entry_of(c: CommitmentView) -> EntryView {
    EntryView {
        org_id: c.org_id,
        seq: c.seq,
        timestamp: c.timestamp,
        commitment: c.commitment,
    }
}

/// Why a commitment is refused, if it is: another correlation, a bad signature, or a place
/// taken by a different commitment.
pub open spec fn refused(
    correlation_id: Seq<char>,
    entries: Seq<EntryView>,
    c: CommitmentView,
    anchor_did: Seq<char>,
    anchor_key: KeyView,
) -> Option<ErrorView> {
    if c.correlation_id != correlation_id {
        Some(signed::bad_proof("commitment correlation_id does not match"@))
    } else {
        match audit::commitment_outcome(c, anchor_did, anchor_key) {
            Err(e) => Some(e),
            Ok(_) => match held(entries, c.org_id, c.seq) {
                Some(e) => if e.commitment != c.commitment {
                    Some(
                        signed::bad_proof(
                            "conflicting commitment for "@ + c.org_id + " seq "@ + text::decimal(
                                c.seq as nat,
                            ),
                        ),
                    )
                } else {
                    None
                },
                None => None,
            },
        }
    }
}

/// A chain after taking in one more commitment. One for a place already held changes nothing.
pub open spec fn merged(entries: Seq<EntryView>, c: CommitmentView) -> Seq<EntryView> {
    if held(entries, c.org_id, c.seq) is Some {
        entries
    } else {
        placed(entries, entry_of(c))
    }
}

/// A chain after taking in some commitments.
pub open spec fn merged_all(entries: Seq<EntryView>, cs: Seq<CommitmentView>) -> Seq<EntryView>
    decreases cs.len(),
{
    if cs.len() == 0 {
        entries
    } else {
        merged(merged_all(entries, cs.drop_last()), cs.last())
    }
}

/// How many of some commitments are taken in before one is refused.
pub open spec fn taken_in(
    correlation_id: Seq<char>,
    entries: Seq<EntryView>,
    cs: Seq<CommitmentView>,
    anchor_did: Seq<char>,
    anchor_key: KeyView,
    n: int,
) -> bool {
    forall|i: int|
        0 <= i < n ==> refused(
            correlation_id,
            merged_all(entries, #[trigger] cs.take(i)),
            cs[i],
            anchor_did,
            anchor_key,
        ) is None
}

/// The views of some commitments.
pub open spec fn commitments_view(v: Seq<AuditCommitment>) -> Seq<CommitmentView> {
    v.map_values(|c: AuditCommitment| c@)
}

/// The bytes of an entry under the root hash.
pub open spec fn entry_bytes(e: EntryView) -> Seq<u8> {
    encoding::text_field(e.org_id) + encoding::le64(e.seq) + encoding::instant_bytes(e.timestamp)
        + encoding::text_field(e.commitment)
}

/// The bytes of some entries.
pub open spec fn entries_bytes(v: Seq<EntryView>) -> Seq<u8>
    decreases v.len(),
{
    if v.len() == 0 {
        Seq::empty()
    } else {
        entries_bytes(v.drop_last()) + entry_bytes(v.last())
    }
}

/// The bytes under the root hash.
pub open spec fn root_bytes(c: CompositorView) -> Seq<u8> {
    encoding::utf8("agentcreds-audit-commitment-v1"@) + encoding::text_field(c.correlation_id)
        + entries_bytes(c.entries)
}

/// The root hash of a chain of custody.
pub open spec fn root_of(c: CompositorView) -> Seq<char> {
    crypto::hex_text(crypto::sha256_digest(root_bytes(c)))
}

/// Appends the bytes of an entry.
pub fn put_entry(out: &mut Vec<u8>, e: &CompositeEntry)
    ensures
        final(out)@ == old(out)@ + entry_bytes(e@),
{
    let mut m: Vec<u8> = Vec::new();
    encoding::put_text(&mut m, e.org_id.as_str());
    assert(m@ =~= encoding::text_field(e@.org_id));
    encoding::put_u64(&mut m, e.seq);
    encoding::put_instant(&mut m, e.timestamp);
    encoding::put_text(&mut m, e.commitment.as_str());
    encoding::put_bytes(out, m.as_slice());
}

/// Appends the bytes of some entries.
pub fn put_entries(out: &mut Vec<u8>, v: &Vec<CompositeEntry>)
    ensures
        final(out)@ == old(out)@ + entries_bytes(entries_view(v@)),
{
    let ghost before = out@;
    let ghost all = entries_view(v@);
    assert(out@ =~= before + entries_bytes(all.take(0)));
    for i in 0..v.len()
        invariant
            all == entries_view(v@),
            out@ == before + entries_bytes(all.take(i as int)),
    {
        put_entry(out, &v[i]);
        assert(all.take(i + 1).drop_last() =~= all.take(i as int));
        assert(all.take(i + 1).last() == v@[i as int]@);
        proof {
            encoding::lemma_assoc(
                before,
                entries_bytes(all.take(i as int)),
                entry_bytes(all.take(i + 1).last()),
            );
        }
    }
    assert(all.take(all.len() as int) =~= all);
}

/// What checking a revealed record against a chain gives.
pub open spec fn revealed_outcome(entries: Seq<EntryView>, r: RecordView) -> Result<
    bool,
    ErrorView,
> {
    match held(entries, r.org_id, r.seq) {
        Some(e) => Ok(e.commitment == audit::commitment_of(r)),
        None => Err(signed::bad_proof("no composited entry for this record"@)),
    }
}

impl AuditCompositor {
    /// A compositor for `correlation_id`.
    pub fn new(correlation_id: &str) -> (r: Self)
        ensures
            r@.correlation_id == correlation_id@,
            r@.entries == Seq::<EntryView>::empty(),
    {
        let r = AuditCompositor {
            correlation_id: correlation_id.to_owned(),
            chain: Chain { entries: Vec::new() },
        };
        assert(r@.entries =~= Seq::<EntryView>::empty());
        r
    }

    /// Ingest one organisation's exported commitments, verifying every signature against
    /// `org_anchor` and that they all belong to this correlation. Idempotent per place in an
    /// organisation's log: re-ingesting the same entries does not duplicate them. The
    /// commitments before one that is refused stay.
    ///
    /// # Errors
    /// `InvalidVcProof` if a commitment is for a different correlation, fails signature
    /// verification, or conflicts with an already-ingested entry.
    pub fn ingest(&mut self, commitments: &[AuditCommitment], org_anchor: &TrustAnchor) -> (r:
        Result<(), AgentCredsError>)
        ensures
            final(self)@.correlation_id == old(self)@.correlation_id,
            is_chain(final(self)@.entries),
            ({
                let cs = commitments_view(commitments@);
                let (start, id) = (old(self)@.entries, old(self)@.correlation_id);
                let (who, key) = (org_anchor.did_text(), org_anchor.key());
                match r {
                    Ok(_) => taken_in(id, start, cs, who, key, cs.len() as int)
                        && final(self)@.entries == merged_all(start, cs),
                    Err(e) => exists|n: int|
                        0 <= n < cs.len() && taken_in(id, start, cs, who, key, n)
                            && final(self)@.entries == merged_all(start, #[trigger] cs.take(n))
                            && refused(id, final(self)@.entries, cs[n], who, key) == Some(e@),
                }
            }),
    {
        let ghost cs = commitments_view(commitments@);
        let ghost start = self@.entries;
        let ghost id = self@.correlation_id;
        assert(cs.take(0) =~= Seq::<CommitmentView>::empty());
        for i in 0..commitments.len()
            invariant
                cs == commitments_view(commitments@),
                id == self@.correlation_id,
                self@.entries == merged_all(start, cs.take(i as int)),
                taken_in(id, start, cs, org_anchor.did_text(), org_anchor.key(), i as int),
                id == old(self)@.correlation_id,
                start == old(self)@.entries,
        {
            let c = &commitments[i];
            assert(cs[i as int] == c@);
            proof {
                use_type_invariant(&self.chain);
            }
            if !text::str_eq(c.correlation_id.as_str(), self.correlation_id.as_str()) {
                return Err(
                    signed::proof_error("commitment correlation_id does not match".to_owned()),
                );
            }
            match c.verify(org_anchor) {
                Ok(_) => {},
                Err(e) => {
                    return Err(e);
                },
            }
            match self.chain.find(c.org_id.as_str(), c.seq) {
                Some(k) => {
                    if !text::str_eq(
                        self.chain.entries[k].commitment.as_str(),
                        c.commitment.as_str(),
                    ) {
                        let mut reason = "conflicting commitment for ".to_owned();
                        reason.append(c.org_id.as_str());
                        reason.append(" seq ");
                        reason.append(text::u64_text(c.seq).as_str());
                        return Err(signed::proof_error(reason));
                    }
                },
                None => {
                    let e = CompositeEntry {
                        org_id: c.org_id.clone(),
                        seq: c.seq,
                        timestamp: c.timestamp,
                        commitment: c.commitment.clone(),
                    };
                    assert(e@ == entry_of(c@));
                    let mut chain = Chain { entries: Vec::new() };
                    core::mem::swap(&mut self.chain, &mut chain);
                    self.chain = chain.with(e);
                },
            }
            assert(cs.take(i + 1).drop_last() =~= cs.take(i as int));
            assert(cs.take(i + 1).last() == c@);
        }
        assert(cs.take(cs.len() as int) =~= cs);
        proof {
            use_type_invariant(&self.chain);
        }
        Ok(())
    }

    /// The merged chain of custody, ordered by time (tiebreak organisation, then sequence
    /// number).
    pub fn chain_of_custody(&self) -> (r: &Vec<CompositeEntry>)
        ensures
            entries_view(r@) == self@.entries,
            is_chain(self@.entries),
    {
        proof {
            use_type_invariant(&self.chain);
        }
        &self.chain.entries
    }

    /// A single tamper-evident digest over the whole ordered chain. Two parties that
    /// composited the same commitments get the same root.
    pub fn root_hash(&self) -> (r: String)
        ensures
            r@ == root_of(self@),
    {
        let mut m: Vec<u8> = Vec::new();
        encoding::put_bytes(&mut m, "agentcreds-audit-commitment-v1".as_bytes());
        assert(m@ =~= encoding::utf8("agentcreds-audit-commitment-v1"@));
        encoding::put_text(&mut m, self.correlation_id.as_str());
        put_entries(&mut m, &self.chain.entries);
        crypto::hex_encode(crypto::sha256(m.as_slice()).as_slice())
    }

    /// Verify a selectively revealed record against the composited commitment: the record's
    /// recomputed hash must equal the entry the organisation published.
    ///
    /// # Errors
    /// `InvalidVcProof` if no matching entry exists.
    pub fn verify_revealed(&self, record: &AuditRecord) -> (r: Result<bool, AgentCredsError>)
        ensures
            match r {
                Ok(b) => revealed_outcome(self@.entries, record@) == Ok::<bool, ErrorView>(b),
                Err(e) => revealed_outcome(self@.entries, record@) == Err::<bool, ErrorView>(e@),
            },
    {
        match self.chain.find(record.org_id.as_str(), record.seq) {
            Some(k) => Ok(
                text::str_eq(
                    self.chain.entries[k].commitment.as_str(),
                    record.commitment().as_str(),
                ),
            ),
            None => Err(signed::proof_error("no composited entry for this record".to_owned())),
        }
    }

    /// Number of entries in the chain of custody.
    pub fn len(&self) -> (r: usize)
        ensures
            r == self@.entries.len(),
    {
        self.chain.entries.len()
    }

    /// Whether the chain of custody is empty.
    pub fn is_empty(&self) -> (r: bool)
        ensures
            r == (self@.entries.len() == 0),
    {
        self.chain.entries.len() == 0
    }
}

// -- Laws -----------------------------------------------------------------------------------------------------

/// Whether some commitments agree: those for one place in one log make the same entry.
pub open spec fn agreeing(cs: Seq<CommitmentView>) -> bool {
    forall|i: int, j: int|
        0 <= i < cs.len() && 0 <= j < cs.len() && (#[trigger] cs[i]).org_id == (
        #[trigger] cs[j]).org_id && cs[i].seq == cs[j].seq ==> entry_of(cs[i]) == entry_of(cs[j])
}

/// Whether an entry comes from one of some commitments.
pub open spec fn comes_from(e: EntryView, cs: Seq<CommitmentView>) -> bool {
    exists|i: int| 0 <= i < cs.len() && entry_of(#[trigger] cs[i]) == e
}

/// Taking in commitments keeps a chain ordered, with one entry for each place in each log.
pub proof fn merging_keeps_the_chain_ordered(entries: Seq<EntryView>, cs: Seq<CommitmentView>)
    requires
        is_chain(entries),
    ensures
        is_chain(merged_all(entries, cs)),
    decreases cs.len(),
{
    if cs.len() > 0 {
        merging_keeps_the_chain_ordered(entries, cs.drop_last());
        let v = merged_all(entries, cs.drop_last());
        let c = cs.last();
        lemma_held(v, c.org_id, c.seq);
        if held(v, c.org_id, c.seq) is None {
            lemma_placed_is_chain(v, entry_of(c));
        }
    }
}

/// Taking in some commitments and then others is taking them in one after the other.
pub proof fn merging_in_parts_is_merging(
    entries: Seq<EntryView>,
    a: Seq<CommitmentView>,
    b: Seq<CommitmentView>,
)
    ensures
        merged_all(merged_all(entries, a), b) == merged_all(entries, a + b),
    decreases b.len(),
{
    if b.len() == 0 {
        assert(a + b =~= a);
    } else {
        merging_in_parts_is_merging(entries, a, b.drop_last());
        assert((a + b).drop_last() =~= a + b.drop_last());
    }
}

proof fn lemma_merged_holds(cs: Seq<CommitmentView>)
    requires
        agreeing(cs),
    ensures
        forall|e: EntryView| #[trigger]
            merged_all(Seq::empty(), cs).contains(e) <==> comes_from(e, cs),
    decreases cs.len(),
{
    let none = Seq::<EntryView>::empty();
    let all = merged_all(none, cs);
    if cs.len() > 0 {
        let (ds, c) = (cs.drop_last(), cs.last());
        let v = merged_all(none, ds);
        assert(agreeing(ds)) by {
            assert forall|i: int, j: int|
                0 <= i < ds.len() && 0 <= j < ds.len() && (#[trigger] ds[i]).org_id == (
                #[trigger] ds[j]).org_id && ds[i].seq == ds[j].seq implies entry_of(ds[i])
                == entry_of(ds[j]) by {
                assert(cs[i] == ds[i] && cs[j] == ds[j]);
            }
        }
        lemma_merged_holds(ds);
        assert(is_chain(none));
        merging_keeps_the_chain_ordered(none, ds);
        lemma_held(v, c.org_id, c.seq);
        assert(cs[cs.len() - 1] == c);
        if held(v, c.org_id, c.seq) is None {
            lemma_placed_is_chain(v, entry_of(c));
        } else {
            let e = held(v, c.org_id, c.seq)->0;
            assert(v.contains(e));
            assert(comes_from(e, ds));
            let k = choose|k: int| 0 <= k < ds.len() && entry_of(#[trigger] ds[k]) == e;
            assert(cs[k] == ds[k]);
            assert(entry_of(c) == e);
        }
        assert forall|e: EntryView| #[trigger] all.contains(e) <==> comes_from(e, cs) by {
            if comes_from(e, ds) {
                let k = choose|k: int| 0 <= k < ds.len() && entry_of(#[trigger] ds[k]) == e;
                assert(cs[k] == ds[k]);
            }
            if comes_from(e, cs) {
                let k = choose|k: int| 0 <= k < cs.len() && entry_of(#[trigger] cs[k]) == e;
                if k < ds.len() {
                    assert(ds[k] == cs[k]);
                    assert(comes_from(e, ds));
                }
            }
            assert(v.contains(e) <==> comes_from(e, ds));
        }
    }
}

/// Two chains that hold the same entries are the same chain.
proof fn lemma_chain_unique(a: Seq<EntryView>, b: Seq<EntryView>)
    requires
        is_chain(a),
        is_chain(b),
        forall|e: EntryView| #[trigger] a.contains(e) <==> b.contains(e),
    ensures
        a == b,
    decreases a.len(),
{
    if a.len() == 0 {
        if b.len() > 0 {
            assert(b.contains(b[0]));
            assert(a.contains(b[0]));
        }
        assert(a =~= b);
    } else {
        assert(a.contains(a[0]));
        assert(b.contains(a[0]));
        let (x, y) = (a[a.len() - 1], b[b.len() - 1]);
        assert(a.contains(x) && b.contains(y));
        assert(b.contains(x) && a.contains(y));
        if x != y {
            let i = choose|i: int| 0 <= i < b.len() && b[i] == x;
            let j = choose|j: int| 0 <= j < a.len() && a[j] == y;
            assert(entry_lt(b[i], b[b.len() - 1]));
            assert(entry_lt(a[j], a[a.len() - 1]));
            lemma_order(x, y, x);
        }
        let (p, q) = (a.drop_last(), b.drop_last());
        assert(is_chain(p)) by {
            assert forall|i: int, j: int| 0 <= i < j < p.len() implies entry_lt(
                #[trigger] p[i],
                #[trigger] p[j],
            ) && !same_slot(p[i], p[j]) by {
                assert(p[i] == a[i] && p[j] == a[j]);
            }
        }
        assert(is_chain(q)) by {
            assert forall|i: int, j: int| 0 <= i < j < q.len() implies entry_lt(
                #[trigger] q[i],
                #[trigger] q[j],
            ) && !same_slot(q[i], q[j]) by {
                assert(q[i] == b[i] && q[j] == b[j]);
            }
        }
        assert forall|e: EntryView| #[trigger] p.contains(e) <==> q.contains(e) by {
            if p.contains(e) {
                let i = choose|i: int| 0 <= i < p.len() && p[i] == e;
                assert(a[i] == e);
                assert(a.contains(e));
                let j = choose|j: int| 0 <= j < b.len() && b[j] == e;
                if j == b.len() - 1 {
                    assert(!same_slot(a[i], a[a.len() - 1]));
                }
                assert(q[j] == e);
            }
            if q.contains(e) {
                let i = choose|i: int| 0 <= i < q.len() && q[i] == e;
                assert(b[i] == e);
                assert(b.contains(e));
                assert(a.contains(e));
                let j = choose|j: int| 0 <= j < a.len() && a[j] == e;
                if j == a.len() - 1 {
                    assert(!same_slot(b[i], b[b.len() - 1]));
                }
                assert(p[j] == e);
            }
        }
        lemma_chain_unique(p, q);
        assert(a =~= p.push(x));
        assert(b =~= q.push(y));
    }
}

/// Two parties that composited the same commitments, in whatever order and however often, get
/// the same chain and the same root.
pub proof fn the_same_commitments_give_the_same_root(
    correlation_id: Seq<char>,
    a: Seq<CommitmentView>,
    b: Seq<CommitmentView>,
)
    requires
        agreeing(a),
        forall|c: CommitmentView| #[trigger] a.contains(c) <==> b.contains(c),
    ensures
        merged_all(Seq::empty(), a) == merged_all(Seq::empty(), b),
        root_of(
            CompositorView { correlation_id, entries: merged_all(Seq::empty(), a) },
        ) == root_of(CompositorView { correlation_id, entries: merged_all(Seq::empty(), b) }),
{
    let none = Seq::<EntryView>::empty();
    assert(is_chain(none));
    assert(agreeing(b)) by {
        assert forall|i: int, j: int|
            0 <= i < b.len() && 0 <= j < b.len() && (#[trigger] b[i]).org_id == (
            #[trigger] b[j]).org_id && b[i].seq == b[j].seq implies entry_of(b[i]) == entry_of(
            b[j],
        ) by {
            assert(b.contains(b[i]) && b.contains(b[j]));
            assert(a.contains(b[i]) && a.contains(b[j]));
            let m = choose|m: int| 0 <= m < a.len() && a[m] == b[i];
            let n = choose|n: int| 0 <= n < a.len() && a[n] == b[j];
            assert(entry_of(a[m]) == entry_of(a[n]));
        }
    }
    lemma_merged_holds(a);
    lemma_merged_holds(b);
    merging_keeps_the_chain_ordered(none, a);
    merging_keeps_the_chain_ordered(none, b);
    assert forall|e: EntryView| comes_from(e, a) <==> comes_from(e, b) by {
        if comes_from(e, a) {
            let k = choose|k: int| 0 <= k < a.len() && entry_of(#[trigger] a[k]) == e;
            assert(a.contains(a[k]));
            let m = choose|m: int| 0 <= m < b.len() && b[m] == a[k];
            assert(entry_of(b[m]) == e);
        }
        if comes_from(e, b) {
            let k = choose|k: int| 0 <= k < b.len() && entry_of(#[trigger] b[k]) == e;
            assert(b.contains(b[k]));
            assert(a.contains(b[k]));
            let m = choose|m: int| 0 <= m < a.len() && a[m] == b[k];
            assert(entry_of(a[m]) == e);
        }
    }
    let (x, y) = (merged_all(none, a), merged_all(none, b));
    assert forall|e: EntryView| #[trigger] x.contains(e) <==> y.contains(e) by {
        assert(comes_from(e, a) <==> comes_from(e, b));
        assert(x.contains(e) <==> comes_from(e, a));
        assert(y.contains(e) <==> comes_from(e, b));
    }
    lemma_chain_unique(x, y);
}

proof fn lemma_stays_held(entries: Seq<EntryView>, cs: Seq<CommitmentView>, i: int)
    requires
        is_chain(entries),
        0 <= i < cs.len(),
    ensures
        held(merged_all(entries, cs), cs[i].org_id, cs[i].seq) is Some,
    decreases cs.len(),
{
    let (ds, c) = (cs.drop_last(), cs.last());
    let v = merged_all(entries, ds);
    let w = merged_all(entries, cs);
    merging_keeps_the_chain_ordered(entries, ds);
    lemma_held(v, c.org_id, c.seq);
    lemma_held(w, cs[i].org_id, cs[i].seq);
    if held(v, c.org_id, c.seq) is None {
        lemma_placed_is_chain(v, entry_of(c));
        assert(w.contains(entry_of(c)));
    }
    if i < ds.len() {
        lemma_stays_held(entries, ds, i);
        assert(ds[i] == cs[i]);
        let e = held(v, cs[i].org_id, cs[i].seq)->0;
        lemma_held(v, cs[i].org_id, cs[i].seq);
        assert(v.contains(e));
        assert(w.contains(e));
    }
}

/// The places in organisations' logs that some commitments are for.
pub open spec fn places(cs: Seq<CommitmentView>) -> Set<(Seq<char>, u64)>
    decreases cs.len(),
{
    if cs.len() == 0 {
        Set::empty()
    } else {
        places(cs.drop_last()).insert((cs.last().org_id, cs.last().seq))
    }
}

proof fn lemma_placed_len(v: Seq<EntryView>, e: EntryView)
    ensures
        placed(v, e).len() == v.len() + 1,
    decreases v.len(),
{
    if v.len() > 0 && entry_lt(e, v.last()) {
        lemma_placed_len(v.drop_last(), e);
    }
}

proof fn lemma_places(cs: Seq<CommitmentView>)
    ensures
        places(cs).finite(),
        merged_all(Seq::empty(), cs).len() == places(cs).len(),
        forall|org_id: Seq<char>, seq: u64|
            places(cs).contains((org_id, seq)) <==> #[trigger] held(
                merged_all(Seq::empty(), cs),
                org_id,
                seq,
            ) is Some,
    decreases cs.len(),
{
    let none = Seq::<EntryView>::empty();
    if cs.len() > 0 {
        let (ds, c) = (cs.drop_last(), cs.last());
        let (v, w) = (merged_all(none, ds), merged_all(none, cs));
        lemma_places(ds);
        assert(is_chain(none));
        merging_keeps_the_chain_ordered(none, ds);
        lemma_held(v, c.org_id, c.seq);
        let new = held(v, c.org_id, c.seq) is None;
        if new {
            lemma_placed_is_chain(v, entry_of(c));
            lemma_placed_len(v, entry_of(c));
            assert(w == placed(v, entry_of(c)));
        } else {
            assert(w == v);
        }
        assert forall|org_id: Seq<char>, seq: u64|
            places(cs).contains((org_id, seq)) <==> #[trigger] held(w, org_id, seq) is Some by {
            lemma_held(v, org_id, seq);
            lemma_held(w, org_id, seq);
            assert(places(ds).contains((org_id, seq)) <==> held(v, org_id, seq) is Some);
            if new {
                if held(v, org_id, seq) is Some {
                    let e = held(v, org_id, seq)->0;
                    assert(w.contains(e));
                    let k = choose|k: int| 0 <= k < w.len() && w[k] == e;
                    assert(w[k].org_id == org_id && w[k].seq == seq);
                }
                if org_id == c.org_id && seq == c.seq {
                    assert(w.contains(entry_of(c)));
                    let k = choose|k: int| 0 <= k < w.len() && w[k] == entry_of(c);
                    assert(w[k].org_id == org_id && w[k].seq == seq);
                }
                if held(w, org_id, seq) is Some {
                    let e = held(w, org_id, seq)->0;
                    assert(w.contains(e));
                    if e != entry_of(c) {
                        assert(v.contains(e));
                        let k = choose|k: int| 0 <= k < v.len() && v[k] == e;
                        assert(v[k].org_id == org_id && v[k].seq == seq);
                    }
                }
            }
        }
    }
}

/// A chain of custody has one entry for each place that its commitments are for: its length is
/// the number of distinct pairs of an organisation and a sequence number, however often and in
/// whatever order they were ingested.
pub proof fn one_entry_for_each_place(cs: Seq<CommitmentView>)
    ensures
        places(cs).finite(),
        merged_all(Seq::empty(), cs).len() == places(cs).len(),
        forall|org_id: Seq<char>, seq: u64| #[trigger]
            places(cs).contains((org_id, seq)) <==> exists|i: int|
                0 <= i < cs.len() && (#[trigger] cs[i]).org_id == org_id && cs[i].seq == seq,
    decreases cs.len(),
{
    lemma_places(cs);
    if cs.len() > 0 {
        let ds = cs.drop_last();
        one_entry_for_each_place(ds);
        assert forall|org_id: Seq<char>, seq: u64| #[trigger]
            places(cs).contains((org_id, seq)) <==> exists|i: int|
                0 <= i < cs.len() && (#[trigger] cs[i]).org_id == org_id && cs[i].seq == seq by {
            if places(ds).contains((org_id, seq)) {
                let i = choose|i: int|
                    0 <= i < ds.len() && (#[trigger] ds[i]).org_id == org_id && ds[i].seq == seq;
                assert(cs[i] == ds[i]);
            }
            if exists|i: int|
                0 <= i < cs.len() && (#[trigger] cs[i]).org_id == org_id && cs[i].seq == seq {
                let i = choose|i: int|
                    0 <= i < cs.len() && (#[trigger] cs[i]).org_id == org_id && cs[i].seq == seq;
                if i < ds.len() {
                    assert(ds[i] == cs[i]);
                }
            }
            assert(cs[cs.len() - 1] == cs.last());
        }
    }
}

/// Ingesting the same commitments again changes nothing.
pub proof fn merging_again_changes_nothing(entries: Seq<EntryView>, cs: Seq<CommitmentView>)
    requires
        is_chain(entries),
    ensures
        merged_all(merged_all(entries, cs), cs) == merged_all(entries, cs),
{
    let v = merged_all(entries, cs);
    assert forall|n: int| 0 <= n <= cs.len() implies merged_all(v, #[trigger] cs.take(n)) == v by {
        lemma_again(entries, cs, n);
    }
    assert(cs.take(cs.len() as int) =~= cs);
}

proof fn lemma_again(entries: Seq<EntryView>, cs: Seq<CommitmentView>, n: int)
    requires
        is_chain(entries),
        0 <= n <= cs.len(),
    ensures
        merged_all(merged_all(entries, cs), cs.take(n)) == merged_all(entries, cs),
    decreases n,
{
    if n > 0 {
        lemma_again(entries, cs, n - 1);
        lemma_stays_held(entries, cs, n - 1);
        assert(cs.take(n).drop_last() =~= cs.take(n - 1));
        assert(cs.take(n).last() == cs[n - 1]);
    }
}

/// A record that its organisation reveals as it was logged matches the commitment that was
/// composited for it.
pub proof fn a_revealed_record_matches(entries: Seq<EntryView>, r: RecordView)
    requires
        is_chain(entries),
        exists|e: EntryView| #[trigger]
            entries.contains(e) && e.org_id == r.org_id && e.seq == r.seq && e.commitment
                == audit::commitment_of(r),
    ensures
        revealed_outcome(entries, r) == Ok::<bool, ErrorView>(true),
{
    let e = choose|e: EntryView| #[trigger]
        entries.contains(e) && e.org_id == r.org_id && e.seq == r.seq && e.commitment
            == audit::commitment_of(r);
    lemma_held(entries, r.org_id, r.seq);
    let i = choose|i: int| 0 <= i < entries.len() && entries[i] == e;
    match held(entries, r.org_id, r.seq) {
        Some(x) => {
            let j = choose|j: int| 0 <= j < entries.len() && entries[j] == x;
            if i < j {
                assert(!same_slot(entries[i], entries[j]));
            }
            if j < i {
                assert(!same_slot(entries[j], entries[i]));
            }
        },
        None => {
            assert(!(entries[i].org_id == r.org_id && entries[i].seq == r.seq));
        },
    }
}

/// Every record of a log whose commitments were composited can be revealed and matches.
pub proof fn a_composited_log_can_be_revealed(
    anchor: TrustAnchor,
    records: Seq<RecordView>,
    cs: Seq<CommitmentView>,
    i: int,
)
    requires
        agreeing(cs),
        records.len() == cs.len(),
        forall|k: int|
            0 <= k < cs.len() ==> audit::shares(anchor, #[trigger] records[k], cs[k]),
        0 <= i < cs.len(),
    ensures
        revealed_outcome(merged_all(Seq::empty(), cs), records[i]) == Ok::<bool, ErrorView>(true),
{
    let none = Seq::<EntryView>::empty();
    let v = merged_all(none, cs);
    assert(is_chain(none));
    merging_keeps_the_chain_ordered(none, cs);
    lemma_merged_holds(cs);
    assert(audit::shares(anchor, records[i], cs[i]));
    let e = entry_of(cs[i]);
    assert(comes_from(e, cs));
    assert(v.contains(e));
    a_revealed_record_matches(v, records[i]);
}

// -- What a root binds ------------------------------------------------------------------------------------

/// Whether an entry fits the machine.
pub open spec fn entry_fits(e: EntryView) -> bool {
    &&& time::time_in_range(e.timestamp)
    &&& encoding::utf8(e.org_id).len() <= u64::MAX
    &&& encoding::utf8(e.commitment).len() <= u64::MAX
}

proof fn lemma_entry_prefix(a: EntryView, b: EntryView, x: Seq<u8>, y: Seq<u8>)
    requires
        entry_fits(a),
        entry_fits(b),
        entry_bytes(a) + x == entry_bytes(b) + y,
    ensures
        a == b,
        x == y,
{
    let (oa, ob) = (encoding::text_field(a.org_id), encoding::text_field(b.org_id));
    let (sa, sb) = (encoding::le64(a.seq), encoding::le64(b.seq));
    let (ta, tb) = (encoding::instant_bytes(a.timestamp), encoding::instant_bytes(b.timestamp));
    let (ca, cb) = (encoding::text_field(a.commitment), encoding::text_field(b.commitment));
    encoding::lemma_assoc_five(oa, sa, ta, ca, x);
    encoding::lemma_assoc_five(ob, sb, tb, cb, y);
    encoding::lemma_text_field_prefix(
        a.org_id,
        b.org_id,
        sa + (ta + (ca + x)),
        sb + (tb + (cb + y)),
    );
    encoding::lemma_le64_prefix(a.seq, b.seq, ta + (ca + x), tb + (cb + y));
    encoding::lemma_instant_prefix(a.timestamp, b.timestamp, ca + x, cb + y);
    encoding::lemma_text_field_prefix(a.commitment, b.commitment, x, y);
}

/// Equally many entries in front of equal bytes are equal, and so is what follows.
pub proof fn lemma_entries_prefix(a: Seq<EntryView>, b: Seq<EntryView>, x: Seq<u8>, y: Seq<u8>)
    requires
        a.len() == b.len(),
        forall|i: int| 0 <= i < a.len() ==> entry_fits(#[trigger] a[i]),
        forall|i: int| 0 <= i < b.len() ==> entry_fits(#[trigger] b[i]),
        entries_bytes(a) + x == entries_bytes(b) + y,
    ensures
        a == b,
        x == y,
    decreases a.len(),
{
    if a.len() == 0 {
        assert(entries_bytes(a) + x =~= x);
        assert(entries_bytes(b) + y =~= y);
        assert(a =~= b);
    } else {
        let (p, q) = (a.drop_last(), b.drop_last());
        let (ea, eb) = (entry_bytes(a.last()), entry_bytes(b.last()));
        encoding::lemma_assoc(entries_bytes(p), ea, x);
        encoding::lemma_assoc(entries_bytes(q), eb, y);
        assert forall|i: int| 0 <= i < p.len() implies entry_fits(#[trigger] p[i]) by {
            assert(a[i] == p[i]);
        }
        assert forall|i: int| 0 <= i < q.len() implies entry_fits(#[trigger] q[i]) by {
            assert(b[i] == q[i]);
        }
        lemma_entries_prefix(p, q, ea + x, eb + y);
        assert(entry_fits(a[a.len() - 1]) && entry_fits(b[b.len() - 1]));
        lemma_entry_prefix(a.last(), b.last(), x, y);
        assert(a =~= p.push(a.last()));
        assert(b =~= q.push(b.last()));
    }
}

proof fn lemma_entries_concat(a: Seq<EntryView>, b: Seq<EntryView>)
    ensures
        entries_bytes(a + b) == entries_bytes(a) + entries_bytes(b),
    decreases b.len(),
{
    if b.len() == 0 {
        assert(a + b =~= a);
        assert(entries_bytes(a) + entries_bytes(b) =~= entries_bytes(a));
    } else {
        let p = b.drop_last();
        lemma_entries_concat(a, p);
        assert((a + b).drop_last() =~= a + p);
        encoding::lemma_assoc(entries_bytes(a), entries_bytes(p), entry_bytes(b.last()));
    }
}

/// A list of entries whose bytes are those of a shorter one is that one.
proof fn lemma_no_more_entries(a: Seq<EntryView>, b: Seq<EntryView>)
    requires
        a.len() <= b.len(),
        forall|i: int| 0 <= i < a.len() ==> entry_fits(#[trigger] a[i]),
        forall|i: int| 0 <= i < b.len() ==> entry_fits(#[trigger] b[i]),
        entries_bytes(a) == entries_bytes(b),
    ensures
        a == b,
{
    let none = Seq::<u8>::empty();
    let n = a.len() as int;
    let (p, q) = (b.take(n), b.skip(n));
    lemma_entries_concat(p, q);
    assert(p + q =~= b);
    assert(entries_bytes(a) + none =~= entries_bytes(a));
    assert forall|i: int| 0 <= i < p.len() implies entry_fits(#[trigger] p[i]) by {
        assert(b[i] == p[i]);
    }
    lemma_entries_prefix(a, p, none, entries_bytes(q));
    if q.len() > 0 {
        vstd::bytes::lemma_auto_spec_u64_to_from_le_bytes();
        assert(encoding::le64(q.last().seq).len() == 8);
        assert(entry_bytes(q.last()).len() >= 8);
        assert(entries_bytes(q).len() > 0);
    }
    assert(p =~= b);
}

/// Whether a chain of custody fits the machine.
pub open spec fn chain_fits(c: CompositorView) -> bool {
    &&& encoding::utf8(c.correlation_id).len() <= u64::MAX
    &&& forall|i: int| 0 <= i < c.entries.len() ==> entry_fits(#[trigger] c.entries[i])
}

/// A root binds the whole chain of custody: parties with one root have composited the same view,
/// for the same correlation id and with the same entries in the same order, unless SHA-256 fails
/// on the two. So an entry that is added, dropped, moved or altered changes the root.
pub proof fn a_root_binds_the_whole_chain(a: CompositorView, b: CompositorView)
    requires
        chain_fits(a),
        chain_fits(b),
        root_of(a) == root_of(b),
    ensures
        a == b || crypto::breaks_on(set![root_bytes(a), root_bytes(b)]),
{
    let inputs = set![root_bytes(a), root_bytes(b)];
    if !crypto::breaks_on(inputs) {
        assert(inputs.contains(root_bytes(a)) && inputs.contains(root_bytes(b)));
        crypto::lemma_hex_round_trip(crypto::sha256_digest(root_bytes(a)));
        crypto::lemma_hex_round_trip(crypto::sha256_digest(root_bytes(b)));
        assert(root_bytes(a) == root_bytes(b));
        let d = encoding::utf8("agentcreds-audit-commitment-v1"@);
        let (ca, cb) = (
            encoding::text_field(a.correlation_id),
            encoding::text_field(b.correlation_id),
        );
        let (ea, eb) = (entries_bytes(a.entries), entries_bytes(b.entries));
        encoding::lemma_assoc(d, ca, ea);
        encoding::lemma_assoc(d, cb, eb);
        encoding::lemma_split(d, d, ca + ea, cb + eb);
        encoding::lemma_text_field_prefix(a.correlation_id, b.correlation_id, ea, eb);
        if a.entries.len() <= b.entries.len() {
            lemma_no_more_entries(a.entries, b.entries);
        } else {
            lemma_no_more_entries(b.entries, a.entries);
        }
    }
}

// -- What is taken in and what is revealed -----------------------------------------------------------------

/// The entry held for a place is one of the chain's that has the place; there is none exactly where no
/// entry has it.
pub proof fn an_entry_is_held_for_its_place(v: Seq<EntryView>, org_id: Seq<char>, seq: u64)
    ensures
        match held(v, org_id, seq) {
            Some(e) => v.contains(e) && e.org_id == org_id && e.seq == seq,
            None => forall|i: int|
                0 <= i < v.len() ==> !((#[trigger] v[i]).org_id == org_id && v[i].seq == seq),
        },
    decreases v.len(),
{
    if v.len() > 0 {
        let p = v.drop_last();
        let n = p.len() as int;
        an_entry_is_held_for_its_place(p, org_id, seq);
        match held(p, org_id, seq) {
            Some(e) => {
                let i = choose|i: int| 0 <= i < p.len() && p[i] == e;
                assert(v[i] == e);
            },
            None => {
                if v.last().org_id == org_id && v.last().seq == seq {
                    assert(v[n] == v.last());
                } else {
                    assert forall|i: int| 0 <= i < v.len() implies !((
                    #[trigger] v[i]).org_id == org_id && v[i].seq == seq) by {
                        if i < n {
                            assert(p[i] == v[i]);
                        }
                    }
                }
            },
        }
    }
}

/// A commitment is taken in exactly where it is for the correlation at hand, is accepted under its
/// organisation's anchor, and does not contradict what is held for its place; every refusal is
/// `InvalidVcProof`.
pub proof fn only_authentic_commitments_are_taken_in(
    correlation_id: Seq<char>,
    entries: Seq<EntryView>,
    c: CommitmentView,
    anchor_did: Seq<char>,
    anchor_key: KeyView,
)
    requires
        is_chain(entries),
    ensures
        refused(correlation_id, entries, c, anchor_did, anchor_key) is None <==> {
            &&& c.correlation_id == correlation_id
            &&& audit::commitment_outcome(c, anchor_did, anchor_key) is Ok
            &&& forall|i: int|
                0 <= i < entries.len() && (#[trigger] entries[i]).org_id == c.org_id
                    && entries[i].seq == c.seq ==> entries[i].commitment == c.commitment
        },
        refused(correlation_id, entries, c, anchor_did, anchor_key) is Some ==> refused(
            correlation_id,
            entries,
            c,
            anchor_did,
            anchor_key,
        )->0 is InvalidVcProof,
{
    an_entry_is_held_for_its_place(entries, c.org_id, c.seq);
    match held(entries, c.org_id, c.seq) {
        Some(e) => {
            let k = choose|k: int| 0 <= k < entries.len() && entries[k] == e;
            assert forall|i: int|
                0 <= i < entries.len() && (#[trigger] entries[i]).org_id == c.org_id
                    && entries[i].seq == c.seq implies entries[i] == e by {
                if i < k {
                    assert(!same_slot(entries[i], entries[k]));
                }
                if k < i {
                    assert(!same_slot(entries[k], entries[i]));
                }
            }
        },
        None => {},
    }
}

/// Taking a commitment in keeps every entry, and adds one for it where its place was free: the
/// organisation, the number, the time and the hash are the commitment's.
pub proof fn taking_in_keeps_what_is_held(entries: Seq<EntryView>, c: CommitmentView, e: EntryView)
    ensures
        merged(entries, c).contains(e) <==> entries.contains(e) || (held(
            entries,
            c.org_id,
            c.seq,
        ) is None && e.org_id == c.org_id && e.seq == c.seq && e.timestamp == c.timestamp
            && e.commitment == c.commitment),
{
    lemma_placed_holds(entries, entry_of(c), e);
}

proof fn lemma_placed_holds(v: Seq<EntryView>, x: EntryView, e: EntryView)
    ensures
        placed(v, x).contains(e) <==> v.contains(e) || e == x,
    decreases v.len(),
{
    if v.len() > 0 && entry_lt(x, v.last()) {
        let p = v.drop_last();
        let q = placed(p, x);
        lemma_placed_holds(p, x, e);
        let r = q.push(v.last());
        if r.contains(e) {
            let i = choose|i: int| 0 <= i < r.len() && r[i] == e;
            if i < q.len() {
                assert(q[i] == e);
                if p.contains(e) {
                    let j = choose|j: int| 0 <= j < p.len() && p[j] == e;
                    assert(v[j] == e);
                }
            } else {
                assert(v[v.len() - 1] == e);
            }
        }
        if q.contains(e) {
            let i = choose|i: int| 0 <= i < q.len() && q[i] == e;
            assert(r[i] == e);
        }
        if v.contains(e) {
            let j = choose|j: int| 0 <= j < v.len() && v[j] == e;
            if j < p.len() {
                assert(p[j] == e);
            } else {
                assert(r[q.len() as int] == e);
            }
        }
    } else {
        let r = v.push(x);
        if r.contains(e) {
            let i = choose|i: int| 0 <= i < r.len() && r[i] == e;
            if i < v.len() {
                assert(v[i] == e);
            }
        }
        if v.contains(e) {
            let i = choose|i: int| 0 <= i < v.len() && v[i] == e;
            assert(r[i] == e);
        }
        assert(r[v.len() as int] == x);
    }
}

/// A revealed record is told from a doctored one: two records that both match what a chain holds for
/// one place are the same, to the second, unless SHA-256 fails on the two; and a record is refused
/// exactly where the chain holds nothing for its place.
pub proof fn a_doctored_record_does_not_match(
    entries: Seq<EntryView>,
    r: RecordView,
    s: RecordView,
)
    requires
        audit::fits(r),
        audit::fits(s),
        r.org_id == s.org_id,
        r.seq == s.seq,
        revealed_outcome(entries, r) == Ok::<bool, ErrorView>(true),
    ensures
        revealed_outcome(entries, s) == Ok::<bool, ErrorView>(true) ==> (time::second_of(r.timestamp)
            == time::second_of(s.timestamp) && r == (RecordView { timestamp: r.timestamp, ..s }))
            || crypto::breaks_on(set![audit::record_bytes(r), audit::record_bytes(s)]),
        revealed_outcome(entries, s) is Ok,
{
    if revealed_outcome(entries, s) == Ok::<bool, ErrorView>(true) {
        audit::a_commitment_binds_its_record(r, s);
    }
}

/// A record can be checked exactly where the chain has an entry for its place, and matches exactly
/// where that entry's hash is the record's own commitment.
pub proof fn a_reveal_compares_with_its_place(entries: Seq<EntryView>, r: RecordView)
    requires
        is_chain(entries),
    ensures
        revealed_outcome(entries, r) is Err <==> forall|i: int|
            0 <= i < entries.len() ==> !((#[trigger] entries[i]).org_id == r.org_id
                && entries[i].seq == r.seq),
        forall|i: int|
            0 <= i < entries.len() && (#[trigger] entries[i]).org_id == r.org_id && entries[i].seq
                == r.seq ==> revealed_outcome(entries, r) == Ok::<bool, ErrorView>(
                entries[i].commitment == audit::commitment_of(r),
            ),
        revealed_outcome(entries, r) is Err ==> revealed_outcome(
            entries,
            r,
        )->Err_0 is InvalidVcProof,
{
    an_entry_is_held_for_its_place(entries, r.org_id, r.seq);
    match held(entries, r.org_id, r.seq) {
        Some(e) => {
            let k = choose|k: int| 0 <= k < entries.len() && entries[k] == e;
            assert forall|i: int|
                0 <= i < entries.len() && (#[trigger] entries[i]).org_id == r.org_id
                    && entries[i].seq == r.seq implies entries[i] == e by {
                if i < k {
                    assert(!same_slot(entries[i], entries[k]));
                }
                if k < i {
                    assert(!same_slot(entries[k], entries[i]));
                }
            }
        },
        None => {},
    }
}

/// A chain of custody is in the order of time; at one time in the order of the organisations, and for one
/// organisation in that of its numbers. No organisation has one number twice.
pub proof fn a_chain_is_in_the_order_of_time(v: Seq<EntryView>, i: int, j: int)
    requires
        is_chain(v),
        0 <= i < j < v.len(),
    ensures
        v[i].timestamp <= v[j].timestamp,
        v[i].timestamp == v[j].timestamp && v[i].org_id != v[j].org_id ==> strings::lex_lt(
            v[i].org_id,
            v[j].org_id,
        ),
        v[i].timestamp == v[j].timestamp && v[i].org_id == v[j].org_id ==> v[i].seq < v[j].seq,
        !(v[i].org_id == v[j].org_id && v[i].seq == v[j].seq),
{
    assert(entry_lt(v[i], v[j]));
    assert(!same_slot(v[i], v[j]));
    strings::lemma_lex_irreflexive(v[i].org_id);
}

} // verus!
