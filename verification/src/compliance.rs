//! Compliance evidence: a signed, self-verifying export of the authorization decisions (and
//! optional chain of custody across organisations) for a delegation flow over a time window.
//!
//! Authenticity and integrity come from the issuer anchor's one signature over the whole
//! bundle; completeness is asserted by the operator, who chose the records.

use vstd::prelude::*;
use vstd::string::*;
use crate::adr;
use crate::adr::stream;
use crate::adr::stream::CheckpointView;
use crate::adr::{AdrCheckpoint, AuthzDecision, Decision, DecisionView, Signal};
use crate::audit::compositor;
use crate::audit::compositor::EntryView;
use crate::audit::{AuditCompositor, CompositeEntry};
use crate::crypto;
use crate::did;
use crate::did::{KeyView, TrustAnchor};
use crate::encoding;
use crate::error::{AgentCredsError, ErrorView};
use crate::signed;
use crate::text;
use crate::time;
use crate::time::Timestamp;

verus! {

// -- Bundles --------------------------------------------------------------------------------------------

/// A signed compliance export.
#[derive(Debug)]
pub struct EvidenceBundle {
    /// Unique bundle id (`urn:evidence:<hex>`).
    pub bundle_id: String,
    /// When the bundle was sealed.
    pub generated_at: Timestamp,
    /// The sealing anchor's DID.
    pub issuer_did: String,
    /// The delegation flow this covers (typically the root credential id).
    pub correlation_id: String,
    /// The credential subject / root agent, if stated.
    pub subject_did: Option<String>,
    /// Start of the covered window, if stated.
    pub window_start: Option<Timestamp>,
    /// End of the covered window, if stated.
    pub window_end: Option<Timestamp>,
    /// The authorization decision records, in sequence order.
    pub decisions: Vec<AuthzDecision>,
    /// The hash-chain head over `decisions`, sealed for a quick integrity check.
    pub decisions_head: String,
    /// Optional cross-reference to the live stream's signed state at export.
    pub stream_checkpoint: Option<AdrCheckpoint>,
    /// Optional chain-of-custody snapshot across organisations.
    pub custody: Vec<CompositeEntry>,
    /// The compositor's root hash for `custody`, if present.
    pub custody_root: Option<String>,
    /// The issuer anchor's signature over the bundle digest.
    pub signature: String,
}

/// A bundle as mathematical values.
#[verifier::ext_equal]
pub struct BundleView {
    pub bundle_id: Seq<char>,
    pub generated_at: int,
    pub issuer_did: Seq<char>,
    pub correlation_id: Seq<char>,
    pub subject_did: Option<Seq<char>>,
    pub window_start: Option<int>,
    pub window_end: Option<int>,
    pub decisions: Seq<DecisionView>,
    pub decisions_head: Seq<char>,
    pub stream_checkpoint: Option<CheckpointView>,
    pub custody: Seq<EntryView>,
    pub custody_root: Option<Seq<char>>,
    pub signature: Seq<char>,
}

/// The view of an optional checkpoint.
pub open spec fn opt_checkpoint(c: Option<AdrCheckpoint>) -> Option<CheckpointView> {
    match c {
        Some(x) => Some(x@),
        None => None,
    }
}

impl View for EvidenceBundle {
    type V = BundleView;

    open spec fn view(&self) -> BundleView {
        BundleView {
            bundle_id: self.bundle_id@,
            generated_at: self.generated_at@,
            issuer_did: self.issuer_did@,
            correlation_id: self.correlation_id@,
            subject_did: text::opt_view(self.subject_did),
            window_start: signed::opt_time(self.window_start),
            window_end: signed::opt_time(self.window_end),
            decisions: stream::records_view(self.decisions@),
            decisions_head: self.decisions_head@,
            stream_checkpoint: opt_checkpoint(self.stream_checkpoint),
            custody: compositor::entries_view(self.custody@),
            custody_root: text::opt_view(self.custody_root),
            signature: self.signature@,
        }
    }
}

fn clone_decisions(v: &Vec<AuthzDecision>) -> (r: Vec<AuthzDecision>)
    ensures
        stream::records_view(r@) == stream::records_view(v@),
{
    let mut out: Vec<AuthzDecision> = Vec::new();
    for i in 0..v.len()
        invariant
            out@.len() == i,
            forall|j: int| 0 <= j < i ==> (#[trigger] out@[j])@ == v@[j]@,
    {
        out.push(v[i].clone());
    }
    assert(stream::records_view(out@) =~= stream::records_view(v@));
    out
}

impl Clone for EvidenceBundle {
    fn clone(&self) -> (r: Self)
        ensures
            r@ == self@,
    {
        EvidenceBundle {
            bundle_id: self.bundle_id.clone(),
            generated_at: self.generated_at,
            issuer_did: self.issuer_did.clone(),
            correlation_id: self.correlation_id.clone(),
            subject_did: text::opt_clone(&self.subject_did),
            window_start: self.window_start,
            window_end: self.window_end,
            decisions: clone_decisions(&self.decisions),
            decisions_head: self.decisions_head.clone(),
            stream_checkpoint: match &self.stream_checkpoint {
                Some(c) => Some(c.clone()),
                None => None,
            },
            custody: compositor::clone_entries(&self.custody),
            custody_root: text::opt_clone(&self.custody_root),
            signature: self.signature.clone(),
        }
    }
}

// -- The digest -----------------------------------------------------------------------------------------

/// The bytes of what a bundle is about.
pub open spec fn scope_bytes(b: BundleView) -> Seq<u8> {
    encoding::text_field(b.bundle_id) + encoding::instant_bytes(b.generated_at)
        + encoding::text_field(b.issuer_did) + encoding::text_field(b.correlation_id)
        + encoding::opt_text_field(b.subject_did)
}

/// The bytes of the covered window.
pub open spec fn window_bytes(b: BundleView) -> Seq<u8> {
    encoding::opt_instant_bytes(b.window_start) + encoding::opt_instant_bytes(b.window_end)
}

/// The digests of some records, one after the other.
pub open spec fn digests(v: Seq<DecisionView>) -> Seq<u8>
    decreases v.len(),
{
    if v.len() == 0 {
        Seq::empty()
    } else {
        digests(v.drop_last()) + adr::record_digest(v.last())
    }
}

/// The bytes of the records and their head.
pub open spec fn decisions_bytes(b: BundleView) -> Seq<u8> {
    encoding::le64(b.decisions.len() as u64) + digests(b.decisions) + encoding::text_field(
        b.decisions_head,
    )
}

/// The bytes of a stream checkpoint: a presence byte, then the checkpoint.
pub open spec fn checkpoint_part(c: Option<CheckpointView>) -> Seq<u8> {
    match c {
        Some(x) => seq![1u8] + encoding::le64(x.count) + encoding::text_field(x.head)
            + encoding::text_field(x.issuer_did) + encoding::text_field(x.signature),
        None => seq![0u8],
    }
}

/// The bytes of the chain of custody and its root.
pub open spec fn custody_bytes(b: BundleView) -> Seq<u8> {
    encoding::le64(b.custody.len() as u64) + compositor::entries_bytes(b.custody)
        + encoding::opt_text_field(b.custody_root)
}

/// The bytes under a bundle's signature.
pub open spec fn bundle_bytes(b: BundleView) -> Seq<u8> {
    encoding::utf8("agentcreds-evidence-bundle-v1"@) + scope_bytes(b) + window_bytes(b)
        + decisions_bytes(b) + checkpoint_part(b.stream_checkpoint) + custody_bytes(b)
}

/// What a bundle's signature signs.
pub open spec fn bundle_digest(b: BundleView) -> Seq<u8> {
    crypto::sha256_digest(bundle_bytes(b))
}

impl EvidenceBundle {
    /// Start building a bundle for `correlation_id` (the delegation flow).
    #[must_use]
    pub fn builder(correlation_id: &str) -> (r: EvidenceBundleBuilder)
        ensures
            r@ == empty_draft(correlation_id@),
    {
        let r = EvidenceBundleBuilder {
            correlation_id: correlation_id.to_owned(),
            subject_did: None,
            window: None,
            decisions: Vec::new(),
            stream_checkpoint: None,
            custody: Vec::new(),
            custody_root: None,
        };
        assert(r@.decisions =~= Seq::<DecisionView>::empty());
        assert(r@.custody =~= Seq::<EntryView>::empty());
        r
    }

    fn scope(&self) -> (r: Vec<u8>)
        ensures
            r@ == scope_bytes(self@),
    {
        let mut m: Vec<u8> = Vec::new();
        encoding::put_text(&mut m, self.bundle_id.as_str());
        assert(m@ =~= encoding::text_field(self@.bundle_id));
        encoding::put_instant(&mut m, self.generated_at);
        encoding::put_text(&mut m, self.issuer_did.as_str());
        encoding::put_text(&mut m, self.correlation_id.as_str());
        encoding::put_opt_text(&mut m, &self.subject_did);
        m
    }

    fn window(&self) -> (r: Vec<u8>)
        ensures
            r@ == window_bytes(self@),
    {
        let mut m: Vec<u8> = Vec::new();
        encoding::put_opt_instant(&mut m, self.window_start);
        assert(m@ =~= encoding::opt_instant_bytes(self@.window_start));
        encoding::put_opt_instant(&mut m, self.window_end);
        m
    }

    fn records(&self) -> (r: Vec<u8>)
        ensures
            r@ == decisions_bytes(self@),
    {
        let ghost all = self@.decisions;
        let mut d: Vec<u8> = Vec::new();
        assert(d@ =~= digests(all.take(0)));
        for i in 0..self.decisions.len()
            invariant
                all == stream::records_view(self.decisions@),
                d@ == digests(all.take(i as int)),
        {
            encoding::put_bytes(&mut d, self.decisions[i].digest().as_slice());
            assert(all.take(i + 1).drop_last() =~= all.take(i as int));
            assert(all.take(i + 1).last() == self.decisions@[i as int]@);
        }
        assert(all.take(all.len() as int) =~= all);
        let mut m: Vec<u8> = Vec::new();
        encoding::put_u64(&mut m, self.decisions.len() as u64);
        assert(m@ =~= encoding::le64(all.len() as u64));
        encoding::put_bytes(&mut m, d.as_slice());
        encoding::put_text(&mut m, self.decisions_head.as_str());
        m
    }

    fn checkpoint(&self) -> (r: Vec<u8>)
        ensures
            r@ == checkpoint_part(self@.stream_checkpoint),
    {
        let mut m: Vec<u8> = Vec::new();
        match &self.stream_checkpoint {
            Some(c) => {
                m.push(1u8);
                assert(m@ =~= seq![1u8]);
                encoding::put_u64(&mut m, c.count);
                encoding::put_text(&mut m, c.head.as_str());
                encoding::put_text(&mut m, c.issuer_did.as_str());
                encoding::put_text(&mut m, c.signature.as_str());
            },
            None => {
                m.push(0u8);
                assert(m@ =~= seq![0u8]);
            },
        }
        m
    }

    fn custody(&self) -> (r: Vec<u8>)
        ensures
            r@ == custody_bytes(self@),
    {
        let mut m: Vec<u8> = Vec::new();
        encoding::put_u64(&mut m, self.custody.len() as u64);
        assert(m@ =~= encoding::le64(self@.custody.len() as u64));
        compositor::put_entries(&mut m, &self.custody);
        encoding::put_opt_text(&mut m, &self.custody_root);
        m
    }

    /// Canonical digest over every field (domain-separated, length-prefixed).
    fn digest(&self) -> (r: Vec<u8>)
        ensures
            r@ == bundle_digest(self@),
    {
        let scope = self.scope();
        let window = self.window();
        let records = self.records();
        let checkpoint = self.checkpoint();
        let custody = self.custody();
        let mut m: Vec<u8> = Vec::new();
        encoding::put_bytes(&mut m, "agentcreds-evidence-bundle-v1".as_bytes());
        assert(m@ =~= encoding::utf8("agentcreds-evidence-bundle-v1"@));
        encoding::put_bytes(&mut m, scope.as_slice());
        encoding::put_bytes(&mut m, window.as_slice());
        encoding::put_bytes(&mut m, records.as_slice());
        encoding::put_bytes(&mut m, checkpoint.as_slice());
        encoding::put_bytes(&mut m, custody.as_slice());
        crypto::sha256(m.as_slice())
    }
}

// -- Verification ---------------------------------------------------------------------------------------

/// The summary returned by a successful [`EvidenceBundle::verify`].
#[derive(Debug)]
pub struct EvidenceReport {
    /// The delegation flow covered.
    pub correlation_id: String,
    /// Total decision records.
    pub decisions: usize,
    /// How many were allows.
    pub allowed: usize,
    /// How many were denies.
    pub denied: usize,
    /// The distinct signals observed across the denies, in order of their first occurrence.
    pub signals: Vec<Signal>,
    /// Whether an embedded stream checkpoint was present and verified.
    pub checkpoint_verified: bool,
    /// Number of chain-of-custody entries included.
    pub custody_entries: usize,
}

/// A report as mathematical values.
#[verifier::ext_equal]
pub struct ReportView {
    pub correlation_id: Seq<char>,
    pub decisions: nat,
    pub allowed: nat,
    pub denied: nat,
    pub signals: Seq<Signal>,
    pub checkpoint_verified: bool,
    pub custody_entries: nat,
}

impl View for EvidenceReport {
    type V = ReportView;

    open spec fn view(&self) -> ReportView {
        ReportView {
            correlation_id: self.correlation_id@,
            decisions: self.decisions as nat,
            allowed: self.allowed as nat,
            denied: self.denied as nat,
            signals: self.signals@,
            checkpoint_verified: self.checkpoint_verified,
            custody_entries: self.custody_entries as nat,
        }
    }
}

impl Clone for EvidenceReport {
    fn clone(&self) -> (r: Self)
        ensures
            r@ == self@,
    {
        let mut signals: Vec<Signal> = Vec::new();
        for i in 0..self.signals.len()
            invariant
                signals@ == self.signals@.take(i as int),
        {
            signals.push(self.signals[i]);
            assert(self.signals@.take(i + 1) =~= self.signals@.take(i as int).push(
                self.signals@[i as int],
            ));
        }
        assert(self.signals@.take(self.signals@.len() as int) =~= self.signals@);
        EvidenceReport {
            correlation_id: self.correlation_id.clone(),
            decisions: self.decisions,
            allowed: self.allowed,
            denied: self.denied,
            signals,
            checkpoint_verified: self.checkpoint_verified,
            custody_entries: self.custody_entries,
        }
    }
}

/// How many of some records allow.
pub open spec fn allows(v: Seq<DecisionView>) -> nat
    decreases v.len(),
{
    if v.len() == 0 {
        0
    } else {
        allows(v.drop_last()) + if v.last().decision == Decision::Allow {
            1nat
        } else {
            0nat
        }
    }
}

/// Some signals, and then those of others that are not among them yet.
pub open spec fn joined(found: Seq<Signal>, more: Seq<Signal>) -> Seq<Signal>
    decreases more.len(),
{
    if more.len() == 0 {
        found
    } else {
        let before = joined(found, more.drop_last());
        if before.contains(more.last()) {
            before
        } else {
            before.push(more.last())
        }
    }
}

/// The distinct signals of the denies among some records, in order of their first occurrence.
pub open spec fn distinct_signals(v: Seq<DecisionView>) -> Seq<Signal>
    decreases v.len(),
{
    if v.len() == 0 {
        Seq::empty()
    } else if v.last().decision is Deny {
        joined(distinct_signals(v.drop_last()), v.last().signals)
    } else {
        distinct_signals(v.drop_last())
    }
}

/// What verifying a bundle gives.
pub open spec fn bundle_outcome(
    b: BundleView,
    anchor_did: Seq<char>,
    anchor_key: KeyView,
) -> Result<ReportView, ErrorView> {
    if b.issuer_did != anchor_did {
        Err(signed::bad_proof("evidence bundle issuer does not match the anchor"@))
    } else {
        match signed::base64_signed(
            b.signature,
            bundle_digest(b),
            anchor_key,
            "evidence bundle signature does not verify"@,
        ) {
            Err(e) => Err(e),
            Ok(_) => if crypto::hex_text(stream::chain_head(b.decisions)) != b.decisions_head {
                Err(signed::bad_proof("decision records do not match the sealed head"@))
            } else {
                match b.stream_checkpoint {
                    Some(c) => match stream::checkpoint_outcome(c, anchor_did, anchor_key) {
                        Err(e) => Err(e),
                        Ok(_) => Ok(report_of(b)),
                    },
                    None => Ok(report_of(b)),
                }
            },
        }
    }
}

/// The summary of a bundle.
pub open spec fn report_of(b: BundleView) -> ReportView {
    ReportView {
        correlation_id: b.correlation_id,
        decisions: b.decisions.len(),
        allowed: allows(b.decisions),
        denied: (b.decisions.len() - allows(b.decisions)) as nat,
        signals: distinct_signals(b.decisions),
        checkpoint_verified: b.stream_checkpoint is Some,
        custody_entries: b.custody.len(),
    }
}

proof fn lemma_allows(v: Seq<DecisionView>)
    ensures
        allows(v) <= v.len(),
    decreases v.len(),
{
    if v.len() > 0 {
        lemma_allows(v.drop_last());
    }
}

fn has_signal(v: &Vec<Signal>, s: Signal) -> (r: bool)
    ensures
        r == v@.contains(s),
{
    for i in 0..v.len()
        invariant
            forall|j: int| 0 <= j < i ==> v@[j] != s,
    {
        if v[i] == s {
            assert(v@[i as int] == s);
            return true;
        }
    }
    false
}

fn count_allows(v: &Vec<AuthzDecision>) -> (r: usize)
    ensures
        r == allows(stream::records_view(v@)),
        r <= v@.len(),
{
    let ghost all = stream::records_view(v@);
    let mut n: usize = 0;
    for i in 0..v.len()
        invariant
            all == stream::records_view(v@),
            n == allows(all.take(i as int)),
            n <= i,
    {
        assert(all.take(i + 1).drop_last() =~= all.take(i as int));
        assert(all.take(i + 1).last() == v@[i as int]@);
        if v[i].decision == Decision::Allow {
            n = n + 1;
        }
    }
    assert(all.take(all.len() as int) =~= all);
    n
}

fn join_signals(found: &mut Vec<Signal>, more: &Vec<Signal>)
    ensures
        final(found)@ == joined(old(found)@, more@),
{
    let ghost start = found@;
    assert(more@.take(0) =~= Seq::<Signal>::empty());
    for i in 0..more.len()
        invariant
            found@ == joined(start, more@.take(i as int)),
    {
        let s = more[i];
        assert(more@.take(i + 1).drop_last() =~= more@.take(i as int));
        assert(more@.take(i + 1).last() == s);
        if !has_signal(&*found, s) {
            found.push(s);
        }
    }
    assert(more@.take(more@.len() as int) =~= more@);
}

fn collect_signals(v: &Vec<AuthzDecision>) -> (r: Vec<Signal>)
    ensures
        r@ == distinct_signals(stream::records_view(v@)),
{
    let ghost all = stream::records_view(v@);
    let mut found: Vec<Signal> = Vec::new();
    assert(found@ =~= distinct_signals(all.take(0)));
    for i in 0..v.len()
        invariant
            all == stream::records_view(v@),
            found@ == distinct_signals(all.take(i as int)),
    {
        if v[i].decision == Decision::Deny {
            join_signals(&mut found, &v[i].signals);
        }
        assert(all.take(i + 1).drop_last() =~= all.take(i as int));
        assert(all.take(i + 1).last() == v@[i as int]@);
    }
    assert(all.take(all.len() as int) =~= all);
    found
}

impl EvidenceBundle {
    /// Verify the bundle against `anchor` and return a summary. Checks the issuer matches, the
    /// signature is valid, and the decision records reproduce the sealed head; if a stream
    /// checkpoint is present it must also be authentic.
    ///
    /// # Errors
    /// `InvalidVcProof` on an anchor mismatch, a bad signature, a decision-head mismatch, or an
    /// invalid embedded checkpoint.
    pub fn verify(&self, anchor: &TrustAnchor) -> (r: Result<EvidenceReport, AgentCredsError>)
        ensures
            match r {
                Ok(x) => bundle_outcome(self@, anchor.did_text(), anchor.key()) == Ok::<
                    ReportView,
                    ErrorView,
                >(x@),
                Err(e) => bundle_outcome(self@, anchor.did_text(), anchor.key()) == Err::<
                    ReportView,
                    ErrorView,
                >(e@),
            },
    {
        if !text::str_eq(self.issuer_did.as_str(), anchor.did()) {
            return Err(
                signed::proof_error("evidence bundle issuer does not match the anchor".to_owned()),
            );
        }
        match signed::verify_base64(
            self.signature.as_str(),
            self.digest().as_slice(),
            anchor,
            "evidence bundle signature does not verify",
        ) {
            Ok(_) => {},
            Err(e) => {
                return Err(e);
            },
        }
        // The included records must reproduce the sealed head - no add, drop, reorder, or
        // alter (also guarded by the signature; checked explicitly so a consumer can see
        // *which* invariant failed).
        if !text::str_eq(
            stream::replay(self.decisions.as_slice()).as_str(),
            self.decisions_head.as_str(),
        ) {
            return Err(
                signed::proof_error("decision records do not match the sealed head".to_owned()),
            );
        }
        let checkpoint_verified = match &self.stream_checkpoint {
            Some(c) => {
                match c.verify(anchor) {
                    Ok(_) => {},
                    Err(e) => {
                        return Err(e);
                    },
                }
                true
            },
            None => false,
        };
        let allowed: usize = count_allows(&self.decisions);
        let signals = collect_signals(&self.decisions);
        Ok(
            EvidenceReport {
                correlation_id: self.correlation_id.clone(),
                decisions: self.decisions.len(),
                allowed,
                denied: self.decisions.len() - allowed,
                signals,
                checkpoint_verified,
                custody_entries: self.custody.len(),
            },
        )
    }
}

// -- Builder --------------------------------------------------------------------------------------------

/// Assembles an [`EvidenceBundle`]; finish with [`seal`](Self::seal).
#[derive(Debug)]
pub struct EvidenceBundleBuilder {
    correlation_id: String,
    subject_did: Option<String>,
    window: Option<(Timestamp, Timestamp)>,
    decisions: Vec<AuthzDecision>,
    stream_checkpoint: Option<AdrCheckpoint>,
    custody: Vec<CompositeEntry>,
    custody_root: Option<String>,
}

/// A draft of a bundle as mathematical values.
#[verifier::ext_equal]
pub struct DraftView {
    pub correlation_id: Seq<char>,
    pub subject_did: Option<Seq<char>>,
    pub window: Option<(int, int)>,
    pub decisions: Seq<DecisionView>,
    pub stream_checkpoint: Option<CheckpointView>,
    pub custody: Seq<EntryView>,
    pub custody_root: Option<Seq<char>>,
}

impl View for EvidenceBundleBuilder {
    type V = DraftView;

    closed spec fn view(&self) -> DraftView {
        DraftView {
            correlation_id: self.correlation_id@,
            subject_did: text::opt_view(self.subject_did),
            window: match self.window {
                Some(w) => Some((w.0@, w.1@)),
                None => None,
            },
            decisions: stream::records_view(self.decisions@),
            stream_checkpoint: opt_checkpoint(self.stream_checkpoint),
            custody: compositor::entries_view(self.custody@),
            custody_root: text::opt_view(self.custody_root),
        }
    }
}

impl Clone for EvidenceBundleBuilder {
    fn clone(&self) -> (r: Self)
        ensures
            r@ == self@,
    {
        EvidenceBundleBuilder {
            correlation_id: self.correlation_id.clone(),
            subject_did: text::opt_clone(&self.subject_did),
            window: self.window,
            decisions: clone_decisions(&self.decisions),
            stream_checkpoint: match &self.stream_checkpoint {
                Some(c) => Some(c.clone()),
                None => None,
            },
            custody: compositor::clone_entries(&self.custody),
            custody_root: text::opt_clone(&self.custody_root),
        }
    }
}

/// A draft that holds nothing yet.
pub open spec fn empty_draft(correlation_id: Seq<char>) -> DraftView {
    DraftView {
        correlation_id,
        subject_did: None,
        window: None,
        decisions: Seq::<DecisionView>::empty(),
        stream_checkpoint: None,
        custody: Seq::<EntryView>::empty(),
        custody_root: None,
    }
}

/// Records in order of their sequence numbers, with one more put behind those that do not come
/// after it.
pub open spec fn filed(v: Seq<DecisionView>, d: DecisionView) -> Seq<DecisionView>
    decreases v.len(),
{
    if v.len() > 0 && d.seq < v.last().seq {
        filed(v.drop_last(), d).push(v.last())
    } else {
        v.push(d)
    }
}

/// Records sorted by their sequence numbers; those with the same number keep their order.
pub open spec fn by_seq(v: Seq<DecisionView>) -> Seq<DecisionView>
    decreases v.len(),
{
    if v.len() == 0 {
        Seq::empty()
    } else {
        filed(by_seq(v.drop_last()), v.last())
    }
}

/// The records of some that belong to a flow, in order.
pub open spec fn matching(v: Seq<DecisionView>, vc_id: Seq<char>) -> Seq<DecisionView> {
    v.filter(|d: DecisionView| d.vc_id == vc_id)
}

proof fn lemma_filed(v: Seq<DecisionView>, d: DecisionView, i: int)
    requires
        0 <= i <= v.len(),
        i > 0 ==> v[i - 1].seq <= d.seq,
        forall|j: int| i <= j < v.len() ==> d.seq < (#[trigger] v[j]).seq,
    ensures
        filed(v, d) == v.insert(i, d),
    decreases v.len(),
{
    if v.len() > 0 && d.seq < v.last().seq {
        assert(i < v.len());
        let w = v.drop_last();
        assert forall|j: int| i <= j < w.len() implies d.seq < (#[trigger] w[j]).seq by {
            assert(w[j] == v[j]);
        }
        lemma_filed(w, d, i);
        assert(filed(v, d) =~= v.insert(i, d));
    } else {
        if i < v.len() {
            assert(d.seq < v[v.len() - 1].seq);
        }
        assert(filed(v, d) =~= v.insert(i, d));
    }
}

fn file(v: &mut Vec<AuthzDecision>, d: AuthzDecision)
    ensures
        stream::records_view(final(v)@) == filed(stream::records_view(old(v)@), d@),
{
    let ghost before = stream::records_view(v@);
    let ghost x = d@;
    let mut i: usize = v.len();
    while i > 0 && d.seq < v[i - 1].seq
        invariant
            i <= v@.len(),
            before == stream::records_view(v@),
            x == d@,
            forall|j: int| i <= j < before.len() ==> x.seq < (#[trigger] before[j]).seq,
        decreases i,
    {
        assert(before[i - 1] == v@[i - 1]@);
        i = i - 1;
    }
    proof {
        if i > 0 {
            assert(before[i - 1] == v@[i - 1]@);
        }
        lemma_filed(before, x, i as int);
    }
    v.insert(i, d);
    assert(stream::records_view(v@) =~= before.insert(i as int, x));
}

fn sorted(v: &[AuthzDecision]) -> (r: Vec<AuthzDecision>)
    ensures
        stream::records_view(r@) == by_seq(stream::records_view(v@)),
{
    let ghost all = stream::records_view(v@);
    let mut out: Vec<AuthzDecision> = Vec::new();
    assert(stream::records_view(out@) =~= by_seq(all.take(0)));
    for i in 0..v.len()
        invariant
            all == stream::records_view(v@),
            stream::records_view(out@) == by_seq(all.take(i as int)),
    {
        file(&mut out, v[i].clone());
        assert(all.take(i + 1).drop_last() =~= all.take(i as int));
        assert(all.take(i + 1).last() == v@[i as int]@);
    }
    assert(all.take(all.len() as int) =~= all);
    out
}

/// Whether an id names a bundle.
pub open spec fn is_bundle_id(id: Seq<char>) -> bool {
    exists|b: Seq<u8>| b.len() == 16 && id == "urn:evidence:"@ + #[trigger] crypto::hex_text(b)
}

fn new_id() -> (r: String)
    ensures
        is_bundle_id(r@),
{
    let b = crypto::random_bytes(16);
    let mut s = "urn:evidence:".to_owned();
    s.append(crypto::hex_encode(b.as_slice()).as_str());
    assert(s@ == "urn:evidence:"@ + crypto::hex_text(b@));
    s
}

/// The bundle that sealing a draft makes, before it is signed.
pub open spec fn sealed(
    d: DraftView,
    bundle_id: Seq<char>,
    generated_at: int,
    issuer_did: Seq<char>,
) -> BundleView {
    BundleView {
        bundle_id,
        generated_at,
        issuer_did,
        correlation_id: d.correlation_id,
        subject_did: d.subject_did,
        window_start: match d.window {
            Some(w) => Some(w.0),
            None => None,
        },
        window_end: match d.window {
            Some(w) => Some(w.1),
            None => None,
        },
        decisions: d.decisions,
        decisions_head: crypto::hex_text(stream::chain_head(d.decisions)),
        stream_checkpoint: d.stream_checkpoint,
        custody: d.custody,
        custody_root: d.custody_root,
        signature: Seq::<char>::empty(),
    }
}

impl EvidenceBundleBuilder {
    /// State the credential subject / root agent the flow concerns.
    #[must_use]
    pub fn subject(self, did: &str) -> (r: Self)
        ensures
            r@ == (DraftView { subject_did: Some(did@), ..self@ }),
    {
        EvidenceBundleBuilder { subject_did: Some(did.to_owned()), ..self }
    }

    /// State the covered time window.
    #[must_use]
    pub fn window(self, start: Timestamp, end: Timestamp) -> (r: Self)
        ensures
            r@ == (DraftView { window: Some((start@, end@)), ..self@ }),
    {
        EvidenceBundleBuilder { window: Some((start, end)), ..self }
    }

    /// Include `decisions` (sorted by sequence number).
    #[must_use]
    pub fn decisions(self, decisions: Vec<AuthzDecision>) -> (r: Self)
        ensures
            r@ == (DraftView { decisions: by_seq(stream::records_view(decisions@)), ..self@ }),
    {
        let decisions = sorted(decisions.as_slice());
        EvidenceBundleBuilder { decisions, ..self }
    }

    /// Include only the decisions in `all` whose credential id matches this bundle's
    /// correlation id (sorted by sequence number) - the common per-flow export.
    #[must_use]
    pub fn decisions_matching(self, all: &[AuthzDecision]) -> (r: Self)
        ensures
            r@ == (DraftView {
                decisions: by_seq(matching(stream::records_view(all@), self@.correlation_id)),
                ..self@
            }),
    {
        let ghost id = self@.correlation_id;
        let ghost views = stream::records_view(all@);
        let mut kept: Vec<AuthzDecision> = Vec::new();
        assert(stream::records_view(kept@) =~= matching(views.take(0), id)) by {
            reveal(Seq::filter);
        }
        for i in 0..all.len()
            invariant
                views == stream::records_view(all@),
                id == self.correlation_id@,
                stream::records_view(kept@) == matching(views.take(i as int), id),
        {
            proof {
                reveal(Seq::filter);
                assert(views.take(i + 1).drop_last() =~= views.take(i as int));
                assert(views.take(i + 1).last() == all@[i as int]@);
            }
            if text::str_eq(all[i].vc_id.as_str(), self.correlation_id.as_str()) {
                let ghost before = stream::records_view(kept@);
                kept.push(all[i].clone());
                assert(stream::records_view(kept@) =~= before.push(all@[i as int]@));
            }
        }
        assert(views.take(views.len() as int) =~= views);
        let decisions = sorted(kept.as_slice());
        EvidenceBundleBuilder { decisions, ..self }
    }

    /// Cross-reference the live stream's signed state at export time.
    #[must_use]
    pub fn stream_checkpoint(self, checkpoint: AdrCheckpoint) -> (r: Self)
        ensures
            r@ == (DraftView { stream_checkpoint: Some(checkpoint@), ..self@ }),
    {
        EvidenceBundleBuilder { stream_checkpoint: Some(checkpoint), ..self }
    }

    /// Attach the chain of custody of an [`AuditCompositor`].
    #[must_use]
    pub fn custody_from(self, compositor: &AuditCompositor) -> (r: Self)
        ensures
            r@ == (DraftView {
                custody: compositor@.entries,
                custody_root: Some(compositor::root_of(compositor@)),
                ..self@
            }),
    {
        let custody = compositor::clone_entries(compositor.chain_of_custody());
        EvidenceBundleBuilder { custody, custody_root: Some(compositor.root_hash()), ..self }
    }

    /// Seal and sign the bundle with `anchor` (which becomes its issuer).
    ///
    /// # Errors
    /// If the anchor fails to sign.
    pub fn seal(self, anchor: &TrustAnchor) -> (r: Result<EvidenceBundle, AgentCredsError>)
        ensures
            match r {
                Ok(b) => {
                    &&& is_bundle_id(b@.bundle_id)
                    &&& b@ == (BundleView {
                        signature: b@.signature,
                        ..sealed(self@, b@.bundle_id, b@.generated_at, anchor.did_text())
                    })
                    &&& signed::signature_given(*anchor, bundle_digest(b@), b@.signature)
                },
                Err(e) => exists|id: Seq<char>, at: int|
                    is_bundle_id(id) && #[trigger] signed::signature_refused(
                        *anchor,
                        bundle_digest(sealed(self@, id, at, anchor.did_text())),
                        e,
                    ),
            },
    {
        let ghost draft = self@;
        let decisions_head = stream::replay(self.decisions.as_slice());
        let (window_start, window_end) = match self.window {
            Some(w) => (Some(w.0), Some(w.1)),
            None => (None, None),
        };
        let bundle = EvidenceBundle {
            bundle_id: new_id(),
            generated_at: Timestamp::now(),
            issuer_did: anchor.did().to_owned(),
            correlation_id: self.correlation_id,
            subject_did: self.subject_did,
            window_start,
            window_end,
            decisions: self.decisions,
            decisions_head,
            stream_checkpoint: self.stream_checkpoint,
            custody: self.custody,
            custody_root: self.custody_root,
            signature: String::new(),
        };
        assert(bundle@.signature =~= Seq::<char>::empty());
        let ghost unsigned = sealed(
            draft,
            bundle@.bundle_id,
            bundle@.generated_at,
            anchor.did_text(),
        );
        assert(bundle@ == unsigned);
        match signed::sign_base64(anchor, bundle.digest().as_slice()) {
            Ok(signature) => {
                let signed_bundle = EvidenceBundle { signature, ..bundle };
                assert(bundle_digest(signed_bundle@) == bundle_digest(unsigned));
                Ok(signed_bundle)
            },
            Err(e) => Err(e),
        }
    }
}

// -- Laws -----------------------------------------------------------------------------------------------------

/// A sealed bundle verifies, with the summary of what it holds, where its signature does and
/// any checkpoint in it is authentic.
pub proof fn a_sealed_bundle_verifies(
    d: DraftView,
    bundle_id: Seq<char>,
    generated_at: int,
    anchor_did: Seq<char>,
    anchor_key: KeyView,
    signature: Seq<char>,
)
    requires
        signed::base64_signed(
            signature,
            bundle_digest(sealed(d, bundle_id, generated_at, anchor_did)),
            anchor_key,
            "evidence bundle signature does not verify"@,
        ) is Ok,
        d.stream_checkpoint is Some ==> stream::checkpoint_outcome(
            d.stream_checkpoint->0,
            anchor_did,
            anchor_key,
        ) is Ok,
    ensures
        ({
            let b = sealed(d, bundle_id, generated_at, anchor_did);
            bundle_outcome(BundleView { signature, ..b }, anchor_did, anchor_key) == Ok::<
                ReportView,
                ErrorView,
            >(report_of(b))
        }),
{
    let b = sealed(d, bundle_id, generated_at, anchor_did);
    assert(bundle_bytes(BundleView { signature, ..b }) == bundle_bytes(b));
    assert(report_of(BundleView { signature, ..b }) == report_of(b));
}

/// In a report the allows and the denies make up the decisions.
pub proof fn report_counts_add_up(b: BundleView)
    ensures
        report_of(b).allowed + report_of(b).denied == report_of(b).decisions,
{
    lemma_allows(b.decisions);
}

proof fn lemma_joined(found: Seq<Signal>, more: Seq<Signal>)
    requires
        found.no_duplicates(),
    ensures
        joined(found, more).no_duplicates(),
        forall|s: Signal| #[trigger]
            joined(found, more).contains(s) <==> found.contains(s) || more.contains(s),
    decreases more.len(),
{
    if more.len() > 0 {
        let (rest, last) = (more.drop_last(), more.last());
        lemma_joined(found, rest);
        let before = joined(found, rest);
        assert forall|s: Signal| #[trigger]
            joined(found, more).contains(s) <==> found.contains(s) || more.contains(s) by {
            assert(more =~= rest.push(last));
            assert(more.contains(s) <==> rest.contains(s) || s == last) by {
                if rest.contains(s) {
                    let k = choose|k: int| 0 <= k < rest.len() && rest[k] == s;
                    assert(more[k] == s);
                }
                if s == last {
                    assert(more[more.len() - 1] == s);
                }
                if more.contains(s) && s != last {
                    let k = choose|k: int| 0 <= k < more.len() && more[k] == s;
                    assert(rest[k] == s);
                }
            }
            if !before.contains(last) {
                let after = before.push(last);
                if before.contains(s) {
                    let k = choose|k: int| 0 <= k < before.len() && before[k] == s;
                    assert(after[k] == s);
                }
                if s == last {
                    assert(after[before.len() as int] == s);
                }
                if after.contains(s) && s != last {
                    let k = choose|k: int| 0 <= k < after.len() && after[k] == s;
                    assert(before[k] == s);
                }
            }
        }
    }
}

/// Whether a record is a deny that carries a signal.
pub open spec fn denied_with(d: DecisionView, s: Signal) -> bool {
    d.decision is Deny && d.signals.contains(s)
}

/// A report names each signal that a deny carries, once, and no other.
pub proof fn report_names_each_signal_once(v: Seq<DecisionView>)
    ensures
        distinct_signals(v).no_duplicates(),
        forall|s: Signal| #[trigger]
            distinct_signals(v).contains(s) <==> exists|i: int|
                0 <= i < v.len() && denied_with(#[trigger] v[i], s),
    decreases v.len(),
{
    if v.len() > 0 {
        let rest = v.drop_last();
        report_names_each_signal_once(rest);
        lemma_joined(distinct_signals(rest), v.last().signals);
        assert forall|s: Signal| #[trigger]
            distinct_signals(v).contains(s) <==> exists|i: int|
                0 <= i < v.len() && denied_with(#[trigger] v[i], s) by {
            if distinct_signals(rest).contains(s) {
                let i = choose|i: int| 0 <= i < rest.len() && denied_with(#[trigger] rest[i], s);
                assert(denied_with(v[i], s));
            }
            if denied_with(v.last(), s) {
                assert(denied_with(v[v.len() - 1], s));
            }
            if exists|i: int| 0 <= i < v.len() && denied_with(#[trigger] v[i], s) {
                let i = choose|i: int| 0 <= i < v.len() && denied_with(#[trigger] v[i], s);
                if i < rest.len() {
                    assert(denied_with(rest[i], s));
                }
            }
        }
    }
}

/// Whether records stand in order of their sequence numbers.
pub open spec fn in_seq_order(v: Seq<DecisionView>) -> bool {
    forall|i: int, j: int| 0 <= i < j < v.len() ==> (#[trigger] v[i]).seq <= (#[trigger] v[j]).seq
}

proof fn lemma_filed_order(v: Seq<DecisionView>, d: DecisionView)
    requires
        in_seq_order(v),
    ensures
        in_seq_order(filed(v, d)),
        filed(v, d).to_multiset() == v.to_multiset().insert(d),
    decreases v.len(),
{
    let f = filed(v, d);
    if v.len() > 0 && d.seq < v.last().seq {
        let (w, last) = (v.drop_last(), v.last());
        assert(in_seq_order(w)) by {
            assert forall|i: int, j: int| 0 <= i < j < w.len() implies (#[trigger] w[i]).seq <= (
            #[trigger] w[j]).seq by {
                assert(w[i] == v[i] && w[j] == v[j]);
            }
        }
        lemma_filed_order(w, d);
        let g = filed(w, d);
        assert(v =~= w.push(last));
        w.to_multiset_ensures();
        g.to_multiset_ensures();
        assert(f.to_multiset() =~= v.to_multiset().insert(d));
        assert forall|i: int| 0 <= i < g.len() implies (#[trigger] g[i]).seq <= last.seq by {
            assert(g.to_multiset().count(g[i]) > 0) by {
                assert(g.contains(g[i]));
            }
            if g[i] != d {
                assert(w.to_multiset().count(g[i]) > 0);
                assert(w.contains(g[i]));
                let k = choose|k: int| 0 <= k < w.len() && w[k] == g[i];
                assert(v[k].seq <= v[v.len() - 1].seq);
            }
        }
        assert forall|i: int, j: int| 0 <= i < j < f.len() implies (#[trigger] f[i]).seq <= (
        #[trigger] f[j]).seq by {
            assert(f[i] == g[i]);
            if j < g.len() {
                assert(f[j] == g[j]);
            }
        }
    } else {
        v.to_multiset_ensures();
        assert forall|i: int| 0 <= i < v.len() implies (#[trigger] v[i]).seq <= d.seq by {
            if i < v.len() - 1 {
                assert(v[i].seq <= v[v.len() - 1].seq);
            }
        }
    }
}

/// The records of a bundle are all those that were given, in order of their sequence numbers.
pub proof fn records_are_sorted_and_kept(v: Seq<DecisionView>)
    ensures
        in_seq_order(by_seq(v)),
        by_seq(v).to_multiset() == v.to_multiset(),
    decreases v.len(),
{
    if v.len() > 0 {
        let (w, last) = (v.drop_last(), v.last());
        records_are_sorted_and_kept(w);
        lemma_filed_order(by_seq(w), last);
        assert(v =~= w.push(last));
        w.to_multiset_ensures();
        assert(by_seq(v).to_multiset() =~= v.to_multiset());
    } else {
        assert(by_seq(v) =~= v);
    }
}

/// Records that are in order already are taken as they are.
pub proof fn sorted_records_are_taken_verbatim(v: Seq<DecisionView>)
    requires
        in_seq_order(v),
    ensures
        by_seq(v) == v,
    decreases v.len(),
{
    if v.len() > 0 {
        let w = v.drop_last();
        assert(in_seq_order(w)) by {
            assert forall|i: int, j: int| 0 <= i < j < w.len() implies (#[trigger] w[i]).seq <= (
            #[trigger] w[j]).seq by {
                assert(w[i] == v[i] && w[j] == v[j]);
            }
        }
        sorted_records_are_taken_verbatim(w);
        if w.len() > 0 {
            assert(v[v.len() - 2].seq <= v[v.len() - 1].seq);
        }
        assert(by_seq(v) =~= v);
    } else {
        assert(by_seq(v) =~= v);
    }
}

/// Whether a bundle fits the machine.
pub open spec fn bundle_fits(b: BundleView) -> bool {
    &&& time::time_in_range(b.generated_at)
    &&& b.window_start is Some ==> time::time_in_range(b.window_start->0)
    &&& b.window_end is Some ==> time::time_in_range(b.window_end->0)
    &&& encoding::utf8(b.bundle_id).len() <= u64::MAX
    &&& encoding::utf8(b.issuer_did).len() <= u64::MAX
    &&& encoding::utf8(b.correlation_id).len() <= u64::MAX
    &&& b.subject_did is Some ==> encoding::utf8(b.subject_did->0).len() <= u64::MAX
    &&& encoding::utf8(b.decisions_head).len() <= u64::MAX
    &&& b.custody_root is Some ==> encoding::utf8(b.custody_root->0).len() <= u64::MAX
    &&& b.stream_checkpoint is Some ==> {
        &&& encoding::utf8(b.stream_checkpoint->0.head).len() <= u64::MAX
        &&& encoding::utf8(b.stream_checkpoint->0.issuer_did).len() <= u64::MAX
        &&& encoding::utf8(b.stream_checkpoint->0.signature).len() <= u64::MAX
    }
    &&& b.decisions.len() <= u64::MAX
    &&& b.custody.len() <= u64::MAX
    &&& forall|i: int| 0 <= i < b.decisions.len() ==> adr::fits(#[trigger] b.decisions[i])
    &&& forall|i: int| 0 <= i < b.custody.len() ==> compositor::entry_fits(#[trigger] b.custody[i])
}

/// Whether two bundles are the same but for their signatures, and their records but for the
/// sequence numbers, which the head covers.
pub open spec fn same_bundle(a: BundleView, b: BundleView) -> bool {
    &&& a == (BundleView { signature: a.signature, decisions: a.decisions, ..b })
    &&& a.decisions.len() == b.decisions.len()
    &&& forall|i: int|
        0 <= i < a.decisions.len() ==> adr::says_the_same(#[trigger] a.decisions[i], b.decisions[i])
}

/// The byte strings that are hashed for the digest of a bundle: its own and those of its records.
pub open spec fn hashed(b: BundleView) -> Set<Seq<u8>> {
    Set::new(
        |x: Seq<u8>|
            x == bundle_bytes(b) || exists|i: int|
                0 <= i < b.decisions.len() && x == adr::record_bytes(#[trigger] b.decisions[i]),
    )
}

proof fn lemma_scope_prefix(a: BundleView, b: BundleView, x: Seq<u8>, y: Seq<u8>)
    requires
        bundle_fits(a),
        bundle_fits(b),
        scope_bytes(a) + x == scope_bytes(b) + y,
    ensures
        a.bundle_id == b.bundle_id,
        a.generated_at == b.generated_at,
        a.issuer_did == b.issuer_did,
        a.correlation_id == b.correlation_id,
        a.subject_did == b.subject_did,
        x == y,
{
    let (ia, ib) = (encoding::text_field(a.bundle_id), encoding::text_field(b.bundle_id));
    let (ta, tb) = (
        encoding::instant_bytes(a.generated_at),
        encoding::instant_bytes(b.generated_at),
    );
    let (wa, wb) = (encoding::text_field(a.issuer_did), encoding::text_field(b.issuer_did));
    let (ca, cb) = (encoding::text_field(a.correlation_id), encoding::text_field(b.correlation_id));
    let (sa, sb) = (
        encoding::opt_text_field(a.subject_did),
        encoding::opt_text_field(b.subject_did),
    );
    encoding::lemma_assoc_six(ia, ta, wa, ca, sa, x);
    encoding::lemma_assoc_six(ib, tb, wb, cb, sb, y);
    encoding::lemma_text_field_prefix(
        a.bundle_id,
        b.bundle_id,
        ta + (wa + (ca + (sa + x))),
        tb + (wb + (cb + (sb + y))),
    );
    encoding::lemma_instant_prefix(
        a.generated_at,
        b.generated_at,
        wa + (ca + (sa + x)),
        wb + (cb + (sb + y)),
    );
    encoding::lemma_text_field_prefix(
        a.issuer_did,
        b.issuer_did,
        ca + (sa + x),
        cb + (sb + y),
    );
    encoding::lemma_text_field_prefix(a.correlation_id, b.correlation_id, sa + x, sb + y);
    encoding::lemma_opt_text_field_prefix(a.subject_did, b.subject_did, x, y);
}

proof fn lemma_window_prefix(a: BundleView, b: BundleView, x: Seq<u8>, y: Seq<u8>)
    requires
        bundle_fits(a),
        bundle_fits(b),
        window_bytes(a) + x == window_bytes(b) + y,
    ensures
        a.window_start == b.window_start,
        a.window_end == b.window_end,
        x == y,
{
    let (sa, sb) = (
        encoding::opt_instant_bytes(a.window_start),
        encoding::opt_instant_bytes(b.window_start),
    );
    let (ea, eb) = (
        encoding::opt_instant_bytes(a.window_end),
        encoding::opt_instant_bytes(b.window_end),
    );
    encoding::lemma_assoc(sa, ea, x);
    encoding::lemma_assoc(sb, eb, y);
    encoding::lemma_opt_instant_prefix(a.window_start, b.window_start, ea + x, eb + y);
    encoding::lemma_opt_instant_prefix(a.window_end, b.window_end, x, y);
}

proof fn lemma_digests_prefix(
    a: Seq<DecisionView>,
    b: Seq<DecisionView>,
    x: Seq<u8>,
    y: Seq<u8>,
    inputs: Set<Seq<u8>>,
)
    requires
        !crypto::breaks_on(inputs),
        forall|i: int|
            0 <= i < a.len() ==> inputs.contains(adr::record_bytes(#[trigger] a[i])),
        forall|i: int|
            0 <= i < b.len() ==> inputs.contains(adr::record_bytes(#[trigger] b[i])),
        a.len() == b.len(),
        forall|i: int| 0 <= i < a.len() ==> adr::fits(#[trigger] a[i]),
        forall|i: int| 0 <= i < b.len() ==> adr::fits(#[trigger] b[i]),
        digests(a) + x == digests(b) + y,
    ensures
        forall|i: int| 0 <= i < a.len() ==> adr::says_the_same(#[trigger] a[i], b[i]),
        x == y,
    decreases a.len(),
{
    if a.len() == 0 {
        assert(digests(a) + x =~= x);
        assert(digests(b) + y =~= y);
    } else {
        let (p, q) = (a.drop_last(), b.drop_last());
        let (ra, rb) = (adr::record_digest(a.last()), adr::record_digest(b.last()));
        encoding::lemma_assoc(digests(p), ra, x);
        encoding::lemma_assoc(digests(q), rb, y);
        assert forall|i: int| 0 <= i < p.len() implies adr::fits(#[trigger] p[i]) by {
            assert(a[i] == p[i]);
        }
        assert forall|i: int| 0 <= i < q.len() implies adr::fits(#[trigger] q[i]) by {
            assert(b[i] == q[i]);
        }
        assert forall|i: int| 0 <= i < p.len() implies inputs.contains(
            adr::record_bytes(#[trigger] p[i]),
        ) by {
            assert(a[i] == p[i]);
        }
        assert forall|i: int| 0 <= i < q.len() implies inputs.contains(
            adr::record_bytes(#[trigger] q[i]),
        ) by {
            assert(b[i] == q[i]);
        }
        lemma_digests_prefix(p, q, ra + x, rb + y, inputs);
        assert(inputs.contains(adr::record_bytes(a[a.len() - 1])));
        assert(inputs.contains(adr::record_bytes(b[b.len() - 1])));
        encoding::lemma_split(ra, rb, x, y);
        assert(adr::fits(a[a.len() - 1]) && adr::fits(b[b.len() - 1]));
        assert(adr::record_bytes(a.last()) == adr::record_bytes(b.last()));
        adr::digest_covers_the_whole_record(a.last(), b.last());
        assert forall|i: int| 0 <= i < a.len() implies adr::says_the_same(#[trigger] a[i], b[i]) by {
            if i < p.len() {
                assert(adr::says_the_same(p[i], q[i]));
            }
        }
    }
}

proof fn lemma_decisions_prefix(
    a: BundleView,
    b: BundleView,
    x: Seq<u8>,
    y: Seq<u8>,
    inputs: Set<Seq<u8>>,
)
    requires
        !crypto::breaks_on(inputs),
        hashed(a).subset_of(inputs),
        hashed(b).subset_of(inputs),
        bundle_fits(a),
        bundle_fits(b),
        decisions_bytes(a) + x == decisions_bytes(b) + y,
    ensures
        a.decisions.len() == b.decisions.len(),
        forall|i: int|
            0 <= i < a.decisions.len() ==> adr::says_the_same(
                #[trigger] a.decisions[i],
                b.decisions[i],
            ),
        a.decisions_head == b.decisions_head,
        x == y,
{
    let (m, n) = (a.decisions.len() as u64, b.decisions.len() as u64);
    let (da, db) = (digests(a.decisions), digests(b.decisions));
    let (ha, hb) = (encoding::text_field(a.decisions_head), encoding::text_field(b.decisions_head));
    encoding::lemma_assoc(encoding::le64(m) + da, ha, x);
    encoding::lemma_assoc(encoding::le64(n) + db, hb, y);
    encoding::lemma_assoc(encoding::le64(m), da, ha + x);
    encoding::lemma_assoc(encoding::le64(n), db, hb + y);
    encoding::lemma_le64_prefix(m, n, da + (ha + x), db + (hb + y));
    assert forall|i: int| 0 <= i < a.decisions.len() implies inputs.contains(
        adr::record_bytes(#[trigger] a.decisions[i]),
    ) by {
        assert(hashed(a).contains(adr::record_bytes(a.decisions[i])));
    }
    assert forall|i: int| 0 <= i < b.decisions.len() implies inputs.contains(
        adr::record_bytes(#[trigger] b.decisions[i]),
    ) by {
        assert(hashed(b).contains(adr::record_bytes(b.decisions[i])));
    }
    lemma_digests_prefix(a.decisions, b.decisions, ha + x, hb + y, inputs);
    encoding::lemma_text_field_prefix(a.decisions_head, b.decisions_head, x, y);
}

proof fn lemma_checkpoint_prefix(a: BundleView, b: BundleView, x: Seq<u8>, y: Seq<u8>)
    requires
        bundle_fits(a),
        bundle_fits(b),
        checkpoint_part(a.stream_checkpoint) + x == checkpoint_part(b.stream_checkpoint) + y,
    ensures
        a.stream_checkpoint == b.stream_checkpoint,
        x == y,
{
    let (l, r) = (checkpoint_part(a.stream_checkpoint), checkpoint_part(b.stream_checkpoint));
    assert((l + x)[0] == (r + y)[0]);
    match (a.stream_checkpoint, b.stream_checkpoint) {
        (Some(c), Some(d)) => {
            let one = seq![1u8];
            let (na, nb) = (encoding::le64(c.count), encoding::le64(d.count));
            let (ha, hb) = (encoding::text_field(c.head), encoding::text_field(d.head));
            let (ia, ib) = (encoding::text_field(c.issuer_did), encoding::text_field(d.issuer_did));
            let (sa, sb) = (encoding::text_field(c.signature), encoding::text_field(d.signature));
            encoding::lemma_assoc_six(one, na, ha, ia, sa, x);
            encoding::lemma_assoc_six(one, nb, hb, ib, sb, y);
            encoding::lemma_split(
                one,
                one,
                na + (ha + (ia + (sa + x))),
                nb + (hb + (ib + (sb + y))),
            );
            encoding::lemma_le64_prefix(
                c.count,
                d.count,
                ha + (ia + (sa + x)),
                hb + (ib + (sb + y)),
            );
            encoding::lemma_text_field_prefix(c.head, d.head, ia + (sa + x), ib + (sb + y));
            encoding::lemma_text_field_prefix(c.issuer_did, d.issuer_did, sa + x, sb + y);
            encoding::lemma_text_field_prefix(c.signature, d.signature, x, y);
            assert(c == d);
        },
        (None, None) => {
            encoding::lemma_split(seq![0u8], seq![0u8], x, y);
        },
        (Some(c), None) => {
            assert(l[0] == 1 && r[0] == 0);
        },
        (None, Some(d)) => {
            assert(l[0] == 0 && r[0] == 1);
        },
    }
}

proof fn lemma_custody(a: BundleView, b: BundleView)
    requires
        bundle_fits(a),
        bundle_fits(b),
        custody_bytes(a) == custody_bytes(b),
    ensures
        a.custody == b.custody,
        a.custody_root == b.custody_root,
{
    let none = Seq::<u8>::empty();
    let (m, n) = (a.custody.len() as u64, b.custody.len() as u64);
    let (ea, eb) = (compositor::entries_bytes(a.custody), compositor::entries_bytes(b.custody));
    let (ra, rb) = (
        encoding::opt_text_field(a.custody_root),
        encoding::opt_text_field(b.custody_root),
    );
    encoding::lemma_assoc(encoding::le64(m), ea, ra);
    encoding::lemma_assoc(encoding::le64(n), eb, rb);
    encoding::lemma_le64_prefix(m, n, ea + ra, eb + rb);
    compositor::lemma_entries_prefix(a.custody, b.custody, ra, rb);
    assert(ra + none =~= ra);
    assert(rb + none =~= rb);
    encoding::lemma_opt_text_field_prefix(a.custody_root, b.custody_root, none, none);
}

/// A bundle that verifies does so with its own records only: with a record added, dropped,
/// moved or changed in any field, it is refused with `InvalidVcProof`, unless SHA-256 fails on
/// what is hashed for the two lists of records.
pub proof fn altered_records_are_refused(
    b: BundleView,
    decisions: Seq<DecisionView>,
    anchor_did: Seq<char>,
    anchor_key: KeyView,
)
    requires
        forall|i: int| 0 <= i < b.decisions.len() ==> adr::fits(#[trigger] b.decisions[i]),
        forall|i: int| 0 <= i < decisions.len() ==> adr::fits(#[trigger] decisions[i]),
        bundle_outcome(b, anchor_did, anchor_key) is Ok,
        decisions != b.decisions,
    ensures
        ({
            let r = bundle_outcome(BundleView { decisions, ..b }, anchor_did, anchor_key);
            r is Err && r->Err_0 is InvalidVcProof
        }) || crypto::breaks_on(stream::hashed(b.decisions).union(stream::hashed(decisions))),
{
    let (g, h) = (stream::chain_head(b.decisions), stream::chain_head(decisions));
    if crypto::hex_text(g) == crypto::hex_text(h) {
        crypto::lemma_hex_round_trip(g);
        crypto::lemma_hex_round_trip(h);
        stream::a_head_binds_the_whole_log(b.decisions, decisions);
    }
}

/// A bundle's digest binds all that it holds: bundles with one digest are the same, unless
/// SHA-256 fails on what is hashed for the two. So nothing can be added to, dropped from,
/// reordered in or altered in a signed bundle unseen.
pub proof fn a_digest_binds_the_whole_bundle(a: BundleView, b: BundleView)
    requires
        bundle_fits(a),
        bundle_fits(b),
        bundle_digest(a) == bundle_digest(b),
    ensures
        same_bundle(a, b) || crypto::breaks_on(hashed(a).union(hashed(b))),
{
    let inputs = hashed(a).union(hashed(b));
    if !crypto::breaks_on(inputs) {
        assert(inputs.contains(bundle_bytes(a)) && inputs.contains(bundle_bytes(b)));
        assert(bundle_bytes(a) == bundle_bytes(b));
        let d = encoding::utf8("agentcreds-evidence-bundle-v1"@);
        let (sa, sb) = (scope_bytes(a), scope_bytes(b));
        let (wa, wb) = (window_bytes(a), window_bytes(b));
        let (da, db) = (decisions_bytes(a), decisions_bytes(b));
        let (pa, pb) = (
            checkpoint_part(a.stream_checkpoint),
            checkpoint_part(b.stream_checkpoint),
        );
        let (ca, cb) = (custody_bytes(a), custody_bytes(b));
        encoding::lemma_assoc_six(d, sa, wa, da, pa, ca);
        encoding::lemma_assoc_six(d, sb, wb, db, pb, cb);
        encoding::lemma_split(d, d, sa + (wa + (da + (pa + ca))), sb + (wb + (db + (pb + cb))));
        lemma_scope_prefix(a, b, wa + (da + (pa + ca)), wb + (db + (pb + cb)));
        lemma_window_prefix(a, b, da + (pa + ca), db + (pb + cb));
        lemma_decisions_prefix(a, b, pa + ca, pb + cb, inputs);
        lemma_checkpoint_prefix(a, b, ca, cb);
        lemma_custody(a, b);
    }
}

// -- What an accepted bundle shows ---------------------------------------------------------------------------

/// A bundle is accepted exactly where it names the anchor as its issuer, carries the Base64 of a
/// signature that verifies under the anchor's key over its digest, its records lead to its head, and
/// its checkpoint, where it has one, is the anchor's too; every refusal is `InvalidVcProof`.
pub proof fn an_accepted_bundle_is_the_anchors(
    b: BundleView,
    anchor_did: Seq<char>,
    anchor_key: KeyView,
)
    ensures
        bundle_outcome(b, anchor_did, anchor_key) is Ok <==> {
            &&& b.issuer_did == anchor_did
            &&& crypto::base64_decoded(b.signature) is Ok
            &&& did::key_verifies(
                anchor_key,
                bundle_digest(b),
                crypto::base64_decoded(b.signature)->Ok_0,
            ) is Ok
            &&& b.decisions_head == crypto::hex_text(stream::chain_head(b.decisions))
            &&& b.stream_checkpoint is Some ==> stream::checkpoint_outcome(
                b.stream_checkpoint->0,
                anchor_did,
                anchor_key,
            ) is Ok
        },
        bundle_outcome(b, anchor_did, anchor_key) is Err ==> bundle_outcome(
            b,
            anchor_did,
            anchor_key,
        )->Err_0 is InvalidVcProof,
        bundle_outcome(b, anchor_did, anchor_key) is Ok ==> bundle_outcome(
            b,
            anchor_did,
            anchor_key,
        )->Ok_0 == report_of(b),
{
}

/// A report says what its bundle holds: the correlation id, how many records there are, how many
/// entries of custody, and whether there is a checkpoint.
pub proof fn a_report_is_of_its_bundle(b: BundleView)
    ensures
        report_of(b).correlation_id == b.correlation_id,
        report_of(b).decisions == b.decisions.len(),
        report_of(b).custody_entries == b.custody.len(),
        report_of(b).checkpoint_verified <==> b.stream_checkpoint is Some,
        report_of(b).allowed == allows(b.decisions),
        report_of(b).signals == distinct_signals(b.decisions),
{
}

/// Records are counted one by one: each that allows counts for one, each that denies for none,
/// wherever it stands.
pub proof fn allowing_records_are_counted_one_by_one(
    v: Seq<DecisionView>,
    w: Seq<DecisionView>,
    d: DecisionView,
)
    ensures
        allows(v + w) == allows(v) + allows(w),
        d.decision is Allow ==> allows(seq![d]) == 1,
        d.decision is Deny ==> allows(seq![d]) == 0,
        allows(Seq::<DecisionView>::empty()) == 0,
    decreases w.len(),
{
    let one = seq![d];
    assert(one.drop_last() =~= Seq::<DecisionView>::empty());
    assert(allows(one) == allows(one.drop_last()) + if d.decision == Decision::Allow {
        1nat
    } else {
        0nat
    });
    if w.len() == 0 {
        assert(v + w =~= v);
    } else {
        assert((v + w).drop_last() =~= v + w.drop_last());
        allowing_records_are_counted_one_by_one(v, w.drop_last(), d);
    }
}

/// Sealing takes a draft over as it is: its correlation id, subject, window, records, checkpoint and
/// custody, under the head that the records lead to.
pub proof fn sealing_takes_the_draft_over(
    d: DraftView,
    bundle_id: Seq<char>,
    generated_at: int,
    issuer_did: Seq<char>,
)
    ensures
        ({
            let b = sealed(d, bundle_id, generated_at, issuer_did);
            &&& b.bundle_id == bundle_id && b.generated_at == generated_at
            &&& b.issuer_did == issuer_did && b.correlation_id == d.correlation_id
            &&& b.subject_did == d.subject_did
            &&& b.window_start is Some == d.window is Some
            &&& b.window_end is Some == d.window is Some
            &&& d.window is Some ==> b.window_start->0 == (d.window->0).0 && b.window_end->0
                == (d.window->0).1
            &&& b.decisions == d.decisions
            &&& b.decisions_head == crypto::hex_text(stream::chain_head(d.decisions))
            &&& b.stream_checkpoint == d.stream_checkpoint
            &&& b.custody == d.custody && b.custody_root == d.custody_root
        }),
{
}

/// The records that match a credential are those about it, all of them and no others.
pub proof fn matching_records_are_those_of_the_credential(
    v: Seq<DecisionView>,
    vc_id: Seq<char>,
    d: DecisionView,
)
    ensures
        matching(v, vc_id).contains(d) <==> v.contains(d) && d.vc_id == vc_id,
        matching(v, vc_id).len() <= v.len(),
    decreases v.len(),
{
    reveal(Seq::filter);
    let m = matching(v, vc_id);
    if v.len() > 0 {
        let p = v.drop_last();
        let q = matching(p, vc_id);
        matching_records_are_those_of_the_credential(p, vc_id, d);
        if v.contains(d) {
            let i = choose|i: int| 0 <= i < v.len() && v[i] == d;
            if i < p.len() {
                assert(p[i] == d);
            }
        }
        if p.contains(d) {
            let i = choose|i: int| 0 <= i < p.len() && p[i] == d;
            assert(v[i] == d);
        }
        assert(v[v.len() - 1] == v.last());
        if v.last().vc_id == vc_id {
            assert(m == q.push(v.last()));
            if q.contains(d) {
                let i = choose|i: int| 0 <= i < q.len() && q[i] == d;
                assert(m[i] == d);
            }
            assert(m[q.len() as int] == v.last());
            if m.contains(d) {
                let i = choose|i: int| 0 <= i < m.len() && m[i] == d;
                if i < q.len() {
                    assert(q[i] == d);
                }
            }
        } else {
            assert(m == q);
        }
    }
}

/// Records are put in the order of their sequence numbers.
pub proof fn records_are_in_the_order_of_their_numbers(v: Seq<DecisionView>, i: int, j: int)
    requires
        0 <= i < j < by_seq(v).len(),
    ensures
        by_seq(v).len() == v.len(),
        by_seq(v)[i].seq <= by_seq(v)[j].seq,
{
    records_are_sorted_and_kept(v);
    assert(by_seq(v).to_multiset().len() == v.to_multiset().len());
    by_seq(v).to_multiset_ensures();
    v.to_multiset_ensures();
}

/// A bundle's identifier is its scheme and the hex of sixteen bytes.
pub proof fn a_bundle_id_is_of_sixteen_bytes(id: Seq<char>)
    requires
        is_bundle_id(id),
    ensures
        text::begins(id, "urn:evidence:"@),
        id.len() == 45,
{
    reveal_strlit("urn:evidence:");
    let b = choose|b: Seq<u8>| b.len() == 16 && id == "urn:evidence:"@ + #[trigger] crypto::hex_text(b);
    assert(id.take("urn:evidence:"@.len() as int) =~= "urn:evidence:"@);
}

} // verus!
