//! The recorder of decisions: a hash chain over them, its signed checkpoints, and the sinks
//! that the records go to.

use vstd::prelude::*;
use vstd::string::*;
use crate::adr;
use crate::adr::{AuthzDecision, DecisionView};
use crate::crypto;
use crate::did;
use crate::did::{KeyView, TrustAnchor};
use crate::encoding;
use crate::error::{AgentCredsError, ErrorView};
use crate::signed;
use crate::text;

verus! {

// -- Sinks ---------------------------------------------------------------------------------------------

/// A destination for recorded decisions. The host implements this to forward to a log, a
/// metrics pipeline or an event store.
pub trait AdrSink: Send + Sync {
    /// Whether a decision was handed to this sink. What the sink does with it is its own.
    open spec fn given(&self, decision: DecisionView) -> bool {
        arbitrary()
    }

    /// Handle one recorded decision. Must not panic; do I/O off the hot path.
    fn emit(&self, decision: &AuthzDecision)
        ensures
            self.given(decision@),
    ;
}

// A shared sink is a sink: it can be inspected while a stream holds a handle of it.
impl<S: AdrSink + ?Sized> AdrSink for std::sync::Arc<S> {
    open spec fn given(&self, decision: DecisionView) -> bool {
        (**self).given(decision)
    }

    fn emit(&self, decision: &AuthzDecision) {
        (**self).emit(decision);
    }
}

/// The views of some records.
pub open spec fn records_view(v: Seq<AuthzDecision>) -> Seq<DecisionView> {
    v.map_values(|d: AuthzDecision| d@)
}

/// A count that is not zero.
#[derive(Debug)]
struct Capacity {
    count: usize,
}

impl Capacity {
    #[verifier::type_invariant]
    spec fn is_positive(self) -> bool {
        0 < self.count
    }

    fn get(&self) -> (r: usize)
        ensures
            r == self.count,
            0 < r,
    {
        proof {
            use_type_invariant(self);
        }
        self.count
    }
}

/// An in-memory buffer of the most recent decisions, bounded: the oldest is dropped first.
#[derive(Debug)]
pub struct InMemorySink {
    capacity: Capacity,
    records: Vec<AuthzDecision>,
}

impl View for InMemorySink {
    type V = Seq<DecisionView>;

    closed spec fn view(&self) -> Seq<DecisionView> {
        records_view(self.records@)
    }
}

/// What a buffer holds after one more record.
pub open spec fn retained(
    held: Seq<DecisionView>,
    d: DecisionView,
    capacity: nat,
) -> Seq<DecisionView> {
    if held.len() >= capacity {
        held.drop_first().push(d)
    } else {
        held.push(d)
    }
}

impl InMemorySink {
    /// How many records it retains.
    pub closed spec fn limit(&self) -> nat {
        self.capacity.count as nat
    }

    /// A sink retaining up to 1024 recent decisions.
    pub fn new() -> (r: Self)
        ensures
            r@ == Seq::<DecisionView>::empty(),
            r.limit() == 1024,
    {
        Self::with_capacity(1024)
    }

    /// A sink retaining up to `capacity` recent decisions (oldest dropped), and at least one.
    pub fn with_capacity(capacity: usize) -> (r: Self)
        ensures
            r@ == Seq::<DecisionView>::empty(),
            r.limit() == (if capacity == 0 {
                1
            } else {
                capacity as nat
            }),
    {
        let bound: usize = if capacity == 0 {
            1
        } else {
            capacity
        };
        let r = InMemorySink { capacity: Capacity { count: bound }, records: Vec::new() };
        assert(r@ =~= Seq::<DecisionView>::empty());
        r
    }

    /// Retain one more decision.
    pub fn emit(&mut self, decision: &AuthzDecision)
        ensures
            final(self)@ == retained(old(self)@, decision@, old(self).limit()),
            final(self).limit() == old(self).limit(),
            old(self)@.len() <= old(self).limit() ==> final(self)@.len() <= final(self).limit(),
    {
        let ghost before = self@;
        if self.records.len() >= self.capacity.get() {
            self.records.remove(0);
            assert(self@ =~= before.drop_first());
        }
        let ghost between = self@;
        self.records.push(decision.clone());
        assert(self@ =~= between.push(decision@));
    }

    /// A snapshot of the retained decisions, oldest first.
    pub fn snapshot(&self) -> (r: Vec<AuthzDecision>)
        ensures
            records_view(r@) == self@,
    {
        let mut out: Vec<AuthzDecision> = Vec::new();
        for i in 0..self.records.len()
            invariant
                out@.len() == i,
                forall|j: int| 0 <= j < i ==> (#[trigger] out@[j])@ == self.records@[j]@,
        {
            out.push(self.records[i].clone());
        }
        assert(records_view(out@) =~= self@);
        out
    }

    /// The number of retained decisions.
    pub fn len(&self) -> (r: usize)
        ensures
            r == self@.len(),
    {
        self.records.len()
    }

    /// Whether no decisions are retained.
    pub fn is_empty(&self) -> (r: bool)
        ensures
            r == (self@.len() == 0),
    {
        self.records.len() == 0
    }
}

impl Default for InMemorySink {
    fn default() -> (r: Self)
        ensures
            r@ == Seq::<DecisionView>::empty(),
            r.limit() == 1024,
    {
        Self::new()
    }
}

// -- The hash chain ------------------------------------------------------------------------------------

/// The head of a chain without records.
pub open spec fn genesis() -> Seq<u8> {
    crypto::sha256_digest(encoding::utf8("agentcreds-adr-chain-v1"@))
}

/// The bytes under the next head of a chain.
pub open spec fn link_bytes(head: Seq<u8>, seq: u64, digest: Seq<u8>) -> Seq<u8> {
    encoding::utf8("agentcreds-adr-chain-v1"@) + head + encoding::le64(seq) + digest
}

/// The head of a chain after one more record.
pub open spec fn folded(head: Seq<u8>, seq: u64, digest: Seq<u8>) -> Seq<u8> {
    crypto::sha256_digest(link_bytes(head, seq, digest))
}

/// The head of the chain over some records.
pub open spec fn chain_head(log: Seq<DecisionView>) -> Seq<u8>
    decreases log.len(),
{
    if log.len() == 0 {
        genesis()
    } else {
        folded(
            chain_head(log.drop_last()),
            log.last().seq,
            adr::record_digest(log.last()),
        )
    }
}

fn first_head() -> (r: Vec<u8>)
    ensures
        r@ == genesis(),
        r@.len() == 32,
{
    crypto::sha256("agentcreds-adr-chain-v1".as_bytes())
}

/// Fold one decision into a hash-chain head.
fn fold(head: &[u8], seq: u64, digest: &[u8]) -> (r: Vec<u8>)
    ensures
        r@ == folded(head@, seq, digest@),
        r@.len() == 32,
{
    let mut m: Vec<u8> = Vec::new();
    encoding::put_bytes(&mut m, "agentcreds-adr-chain-v1".as_bytes());
    assert(m@ =~= encoding::utf8("agentcreds-adr-chain-v1"@));
    encoding::put_bytes(&mut m, head);
    encoding::put_u64(&mut m, seq);
    encoding::put_bytes(&mut m, digest);
    crypto::sha256(m.as_slice())
}

/// Recompute the hash-chain head from an ordered slice of decisions - for a consumer to check
/// its received stream against a signed [`AdrCheckpoint`]. Decisions must be in `seq` order
/// (as delivered).
pub fn replay(decisions: &[AuthzDecision]) -> (r: String)
    ensures
        r@ == crypto::hex_text(chain_head(records_view(decisions@))),
{
    let ghost all = records_view(decisions@);
    let mut head = first_head();
    for i in 0..decisions.len()
        invariant
            all == records_view(decisions@),
            head@ == chain_head(all.take(i as int)),
    {
        let d = &decisions[i];
        head = fold(head.as_slice(), d.seq, d.digest().as_slice());
        assert(all.take(i + 1).drop_last() =~= all.take(i as int));
        assert(all.take(i + 1).last() == d@);
    }
    assert(all.take(all.len() as int) =~= all);
    crypto::hex_encode(head.as_slice())
}

/// The 32 bytes of a head.
struct Head {
    bytes: Vec<u8>,
}

impl Head {
    #[verifier::type_invariant]
    spec fn is_digest(self) -> bool {
        self.bytes@.len() == 32
    }

    fn as_slice(&self) -> (r: &[u8])
        ensures
            r@ == self.bytes@,
            r@.len() == 32,
    {
        proof {
            use_type_invariant(self);
        }
        self.bytes.as_slice()
    }
}

/// A recorder that stamps each decision with a sequence number, advances a tamper-evident
/// hash chain, and fans the decision out to every subscribed [`AdrSink`].
pub struct AdrStream {
    sinks: Vec<Box<dyn AdrSink>>,
    seq: u64,
    head: Head,
    log: Vec<AuthzDecision>,
}

/// The state of a stream: how many decisions it recorded, and its head.
#[verifier::ext_equal]
pub struct StreamView {
    pub count: u64,
    pub head: Seq<u8>,
}

impl View for AdrStream {
    type V = StreamView;

    closed spec fn view(&self) -> StreamView {
        StreamView { count: self.seq, head: self.head.bytes@ }
    }
}

/// What resuming at a count and a head text gives.
pub open spec fn resumed(count: u64, head: Seq<char>) -> Result<StreamView, ErrorView> {
    if !crypto::is_hex(head) {
        Err(
            ErrorView::MalformedClaims {
                reason: "ADR chain head is not valid hex: "@ + crypto::hex_error(head),
            },
        )
    } else if crypto::hex_bytes(head).len() != 32 {
        Err(
            ErrorView::MalformedClaims {
                reason: "ADR chain head must be 32 bytes, got "@ + text::decimal(
                    crypto::hex_bytes(head).len(),
                ),
            },
        )
    } else {
        Ok(StreamView { count, head: crypto::hex_bytes(head) })
    }
}

/// A decision as a stream stamps it.
pub open spec fn stamped(d: DecisionView, seq: u64) -> DecisionView {
    DecisionView { seq, ..d }
}

/// A stream after recording one decision.
pub open spec fn advanced(s: StreamView, d: DecisionView) -> StreamView {
    StreamView {
        count: (s.count + 1) as u64,
        head: folded(s.head, s.count, adr::record_digest(d)),
    }
}

impl AdrStream {
    /// The subscribed sinks, in order.
    pub closed spec fn sinks(&self) -> Seq<Box<dyn AdrSink>> {
        self.sinks@
    }

    /// The records that this stream made, in order. A resumed stream does not have those from
    /// before.
    pub closed spec fn log(&self) -> Seq<DecisionView> {
        records_view(self.log@)
    }

    /// Whether every sink was given every record.
    pub open spec fn all_delivered(&self) -> bool {
        forall|i: int, j: int|
            0 <= i < self.sinks().len() && 0 <= j < self.log().len()
                ==> #[trigger] self.sinks()[i].given(self.log()[j])
    }

    /// A new, empty stream (genesis head).
    pub fn new() -> (r: Self)
        ensures
            r@ == (StreamView { count: 0, head: genesis() }),
            r.sinks().len() == 0,
            r.log().len() == 0,
            r.all_delivered(),
    {
        AdrStream {
            sinks: Vec::new(),
            seq: 0,
            head: Head { bytes: first_head() },
            log: Vec::new(),
        }
    }

    /// Resume a stream at a known `(count, head)` recovered from durable storage, instead of
    /// replaying every decision from genesis. The next [`record`](Self::record) continues the
    /// same hash chain (assigning seq `count`), so a resumed stream and a fully replayed one
    /// fold subsequent decisions identically. `head` is the 32-byte chain head as hex (exactly
    /// as [`head`](Self::head) returns).
    ///
    /// # Errors
    /// `MalformedClaims` if `head` is not 32 bytes of hex.
    pub fn resume(count: u64, head: &str) -> (r: Result<Self, AgentCredsError>)
        ensures
            match r {
                Ok(s) => resumed(count, head@) == Ok::<StreamView, ErrorView>(s@)
                    && s.sinks().len() == 0 && s.log().len() == 0 && s.all_delivered(),
                Err(e) => resumed(count, head@) == Err::<StreamView, ErrorView>(e@),
            },
    {
        match crypto::hex_decode(head) {
            Err(e) => {
                let mut reason = "ADR chain head is not valid hex: ".to_owned();
                reason.append(e.as_str());
                Err(AgentCredsError::MalformedClaims { reason })
            },
            Ok(bytes) => {
                if bytes.len() != 32 {
                    let mut reason = "ADR chain head must be 32 bytes, got ".to_owned();
                    reason.append(text::u64_text(bytes.len() as u64).as_str());
                    return Err(AgentCredsError::MalformedClaims { reason });
                }
                Ok(
                    AdrStream {
                        sinks: Vec::new(),
                        seq: count,
                        head: Head { bytes },
                        log: Vec::new(),
                    },
                )
            },
        }
    }

    /// Subscribe a sink. The decisions that this stream recorded before are delivered to it at
    /// once, in order, and those that it records from here on as they are recorded.
    pub fn subscribe(&mut self, sink: Box<dyn AdrSink>) -> (r: &mut Self)
        ensures
            r@ == old(self)@,
            r.log() == old(self).log(),
            r.sinks() == old(self).sinks().push(sink),
            r.sinks().len() == old(self).sinks().len() + 1,
            forall|i: int|
                0 <= i < old(self).sinks().len() ==> #[trigger] r.sinks()[i] == old(
                    self,
                ).sinks()[i],
            forall|j: int|
                0 <= j < r.log().len() ==> #[trigger] r.sinks().last().given(r.log()[j]),
            old(self).all_delivered() ==> r.all_delivered(),
            *final(self) == *final(r),
    {
        let ghost had = self.sinks();
        let ghost log = self.log();
        let n: usize = self.sinks.len();
        text::put_last(&mut self.sinks, sink);
        let ghost now = self.sinks();
        for k in 0..self.log.len()
            invariant
                n < self.sinks@.len(),
                now == self.sinks@,
                log == records_view(self.log@),
                forall|j: int| 0 <= j < k ==> #[trigger] now[n as int].given(log[j]),
        {
            self.sinks[n].emit(&self.log[k]);
            assert(log[k as int] == self.log@[k as int]@);
            assert(now[n as int].given(log[k as int]));
        }
        assert(old(self).all_delivered() ==> self.all_delivered()) by {
            if old(self).all_delivered() {
                assert forall|i: int, j: int|
                    0 <= i < self.sinks().len() && 0 <= j < self.log().len() implies
                    #[trigger] self.sinks()[i].given(self.log()[j]) by {
                    if i < had.len() {
                        assert(had[i].given(log[j]));
                        assert(now[i] == had[i]);
                    } else {
                        assert(now[n as int].given(log[j]));
                    }
                }
            }
        }
        self
    }

    /// Record a decision: assign its sequence number, fold it into the hash chain, and emit it
    /// to all sinks, in the order in which they subscribed. Returns the stamped record.
    pub fn record(&mut self, decision: AuthzDecision) -> (r: AuthzDecision)
        requires
            old(self)@.count < u64::MAX,
        ensures
            r@ == stamped(decision@, old(self)@.count),
            final(self)@ == advanced(old(self)@, decision@),
            final(self).sinks() == old(self).sinks(),
            final(self).log() == old(self).log().push(r@),
            forall|i: int|
                0 <= i < final(self).sinks().len() ==> #[trigger] final(self).sinks()[i].given(r@),
            old(self).all_delivered() ==> final(self).all_delivered(),
    {
        let ghost before = self.log();
        let ghost had = self.sinks();
        let decision = AuthzDecision { seq: self.seq, ..decision };
        let digest = decision.digest();
        self.head = Head { bytes: fold(self.head.as_slice(), self.seq, digest.as_slice()) };
        self.seq = self.seq + 1;
        for k in 0..self.sinks.len()
            invariant
                had == self.sinks@,
                forall|i: int| 0 <= i < k ==> #[trigger] had[i].given(decision@),
        {
            self.sinks[k].emit(&decision);
            assert(had[k as int].given(decision@));
        }
        self.log.push(decision.clone());
        assert(self.log() =~= before.push(decision@));
        assert(old(self).all_delivered() ==> self.all_delivered()) by {
            if old(self).all_delivered() {
                assert forall|i: int, j: int|
                    0 <= i < self.sinks().len() && 0 <= j < self.log().len() implies
                    #[trigger] self.sinks()[i].given(self.log()[j]) by {
                    if j < before.len() {
                        assert(old(self).sinks()[i].given(old(self).log()[j]));
                    } else {
                        assert(had[i].given(decision@));
                    }
                }
            }
        }
        decision
    }

    /// The current hash-chain head (hex). Two consumers that replay the same ordered decisions
    /// arrive at the same head.
    pub fn head(&self) -> (r: String)
        ensures
            r@ == crypto::hex_text(self@.head),
            self@.head.len() == 32,
    {
        crypto::hex_encode(self.head.as_slice())
    }

    /// The number of decisions recorded so far.
    pub fn count(&self) -> (r: u64)
        ensures
            r == self@.count,
    {
        self.seq
    }

    /// Sign the current `(count, head)` with `anchor` - a checkpoint a consumer can verify the
    /// decision log against.
    ///
    /// # Errors
    /// If the anchor fails to sign, or signs with more bytes than a text can hold.
    pub fn sign_checkpoint(&self, anchor: &TrustAnchor) -> (r: Result<
        AdrCheckpoint,
        AgentCredsError,
    >)
        ensures
            match r {
                Ok(c) => {
                    &&& c@.count == self@.count
                    &&& c@.head == crypto::hex_text(self@.head)
                    &&& c@.issuer_did == anchor.did_text()
                    &&& signed::signature_given(*anchor, checkpoint_digest(c@), c@.signature)
                },
                Err(e) => signed::signature_refused(
                    *anchor,
                    crypto::sha256_digest(
                        checkpoint_bytes(
                            self@.count,
                            crypto::hex_text(self@.head),
                            anchor.did_text(),
                        ),
                    ),
                    e,
                ),
            },
            anchor.in_software() && r is Ok ==> checkpoint_outcome(
                r->Ok_0@,
                anchor.did_text(),
                anchor.key(),
            ) is Ok,
    {
        let head = self.head();
        let payload = signing_payload(self.seq, head.as_str(), anchor.did());
        match signed::sign_base64(anchor, payload.as_slice()) {
            Ok(signature) => Ok(
                AdrCheckpoint {
                    count: self.seq,
                    head,
                    issuer_did: anchor.did().to_owned(),
                    signature,
                },
            ),
            Err(e) => Err(e),
        }
    }
}

impl Default for AdrStream {
    fn default() -> (r: Self)
        ensures
            r@ == (StreamView { count: 0, head: genesis() }),
            r.sinks().len() == 0,
    {
        Self::new()
    }
}

// -- Checkpoints ------------------------------------------------------------------------------------------

/// An anchor-signed attestation that the decision log reached `count` records with hash-chain
/// `head`. Tamper-evidence for the whole stream in one signature.
#[derive(Debug)]
pub struct AdrCheckpoint {
    /// Number of decisions covered.
    pub count: u64,
    /// The hash-chain head over those decisions (hex).
    pub head: String,
    /// The signing anchor's DID.
    pub issuer_did: String,
    /// The anchor's signature over `(count, head)`.
    pub signature: String,
}

/// A checkpoint as mathematical values.
#[verifier::ext_equal]
pub struct CheckpointView {
    pub count: u64,
    pub head: Seq<char>,
    pub issuer_did: Seq<char>,
    pub signature: Seq<char>,
}

impl View for AdrCheckpoint {
    type V = CheckpointView;

    open spec fn view(&self) -> CheckpointView {
        CheckpointView {
            count: self.count,
            head: self.head@,
            issuer_did: self.issuer_did@,
            signature: self.signature@,
        }
    }
}

impl Clone for AdrCheckpoint {
    fn clone(&self) -> (r: Self)
        ensures
            r@ == self@,
    {
        AdrCheckpoint {
            count: self.count,
            head: self.head.clone(),
            issuer_did: self.issuer_did.clone(),
            signature: self.signature.clone(),
        }
    }
}

/// The bytes under a checkpoint's signature.
pub open spec fn checkpoint_bytes(count: u64, head: Seq<char>, issuer_did: Seq<char>) -> Seq<u8> {
    encoding::utf8("agentcreds-adr-checkpoint-v1"@) + encoding::le64(count) + encoding::text_field(
        head,
    ) + encoding::text_field(issuer_did)
}

/// What a checkpoint's signature signs.
pub open spec fn checkpoint_digest(c: CheckpointView) -> Seq<u8> {
    crypto::sha256_digest(checkpoint_bytes(c.count, c.head, c.issuer_did))
}

/// What checking a checkpoint against an anchor gives.
pub open spec fn checkpoint_outcome(
    c: CheckpointView,
    anchor_did: Seq<char>,
    anchor_key: KeyView,
) -> Result<(), ErrorView> {
    if c.issuer_did != anchor_did {
        Err(signed::bad_proof("checkpoint issuer does not match the anchor"@))
    } else {
        signed::base64_signed(
            c.signature,
            checkpoint_digest(c),
            anchor_key,
            "checkpoint signature does not verify"@,
        )
    }
}

fn signing_payload(count: u64, head: &str, issuer_did: &str) -> (r: Vec<u8>)
    ensures
        r@ == crypto::sha256_digest(checkpoint_bytes(count, head@, issuer_did@)),
{
    let mut m: Vec<u8> = Vec::new();
    encoding::put_bytes(&mut m, "agentcreds-adr-checkpoint-v1".as_bytes());
    assert(m@ =~= encoding::utf8("agentcreds-adr-checkpoint-v1"@));
    encoding::put_u64(&mut m, count);
    encoding::put_text(&mut m, head);
    encoding::put_text(&mut m, issuer_did);
    crypto::sha256(m.as_slice())
}

impl AdrCheckpoint {
    /// Verify the checkpoint signature against `anchor`.
    ///
    /// # Errors
    /// `InvalidVcProof` on an anchor/issuer mismatch or a bad signature.
    pub fn verify(&self, anchor: &TrustAnchor) -> (r: Result<(), AgentCredsError>)
        ensures
            did::unit_view(r) == checkpoint_outcome(self@, anchor.did_text(), anchor.key()),
    {
        if !text::str_eq(self.issuer_did.as_str(), anchor.did()) {
            return Err(
                signed::proof_error("checkpoint issuer does not match the anchor".to_owned()),
            );
        }
        let payload = signing_payload(self.count, self.head.as_str(), self.issuer_did.as_str());
        signed::verify_base64(
            self.signature.as_str(),
            payload.as_slice(),
            anchor,
            "checkpoint signature does not verify",
        )
    }
}

// -- Laws ---------------------------------------------------------------------------------------------------

/// What an empty buffer holds after some records.
pub open spec fn retained_of(log: Seq<DecisionView>, capacity: nat) -> Seq<DecisionView>
    decreases log.len(),
{
    if log.len() == 0 {
        Seq::empty()
    } else {
        retained(retained_of(log.drop_last(), capacity), log.last(), capacity)
    }
}

/// A buffer holds the most recent records it was given, in order, up to its capacity.
pub proof fn a_buffer_keeps_the_most_recent(log: Seq<DecisionView>, capacity: nat)
    requires
        0 < capacity,
    ensures
        log.len() <= capacity ==> retained_of(log, capacity) == log,
        log.len() > capacity ==> retained_of(log, capacity) == log.subrange(
            log.len() - capacity,
            log.len() as int,
        ),
    decreases log.len(),
{
    if log.len() == 0 {
        assert(retained_of(log, capacity) =~= log);
    } else {
        a_buffer_keeps_the_most_recent(log.drop_last(), capacity);
        if log.len() <= capacity {
            assert(retained_of(log, capacity) =~= log);
        } else {
            assert(retained_of(log, capacity) =~= log.subrange(
                log.len() - capacity,
                log.len() as int,
            ));
        }
    }
}

/// A new stream after recording some decisions.
pub open spec fn recorded(ds: Seq<DecisionView>) -> StreamView
    decreases ds.len(),
{
    if ds.len() == 0 {
        StreamView { count: 0, head: genesis() }
    } else {
        advanced(recorded(ds.drop_last()), ds.last())
    }
}

/// Some decisions as a new stream stamps them.
pub open spec fn stamped_log(ds: Seq<DecisionView>) -> Seq<DecisionView> {
    Seq::new(ds.len(), |i: int| stamped(ds[i], i as u64))
}

/// Replaying the records that a stream gave out arrives at the stream's own head.
pub proof fn replay_arrives_at_the_recorded_head(ds: Seq<DecisionView>)
    requires
        ds.len() <= u64::MAX,
    ensures
        recorded(ds).count == ds.len(),
        recorded(ds).head == chain_head(stamped_log(ds)),
    decreases ds.len(),
{
    if ds.len() > 0 {
        let before = ds.drop_last();
        replay_arrives_at_the_recorded_head(before);
        let log = stamped_log(ds);
        assert(log.drop_last() =~= stamped_log(before));
        assert(log.last() == stamped(ds.last(), before.len() as u64));
        adr::digest_ignores_the_sequence_number(log.last(), ds.last());
    }
}

/// Resuming at the count and the head text of a stream gives that stream's state, so that it
/// and the resumed one fold the decisions that follow identically.
pub proof fn a_resumed_stream_goes_on_from_the_same_state(s: StreamView)
    requires
        s.head.len() == 32,
    ensures
        resumed(s.count, crypto::hex_text(s.head)) == Ok::<StreamView, ErrorView>(s),
{
    crypto::lemma_hex_round_trip(s.head);
}

/// The byte strings that are hashed for the head of a log: those of its records and its links.
pub open spec fn hashed(log: Seq<DecisionView>) -> Set<Seq<u8>>
    decreases log.len(),
{
    if log.len() == 0 {
        set![encoding::utf8("agentcreds-adr-chain-v1"@)]
    } else {
        let (before, d) = (log.drop_last(), log.last());
        hashed(before).insert(adr::record_bytes(d)).insert(
            link_bytes(chain_head(before), d.seq, adr::record_digest(d)),
        )
    }
}

proof fn lemma_link(
    a: DecisionView,
    b: DecisionView,
    g: Seq<u8>,
    h: Seq<u8>,
    inputs: Set<Seq<u8>>,
)
    requires
        g.len() == h.len(),
        adr::fits(a),
        adr::fits(b),
        folded(g, a.seq, adr::record_digest(a)) == folded(h, b.seq, adr::record_digest(b)),
        !crypto::breaks_on(inputs),
        inputs.contains(adr::record_bytes(a)),
        inputs.contains(adr::record_bytes(b)),
        inputs.contains(link_bytes(g, a.seq, adr::record_digest(a))),
        inputs.contains(link_bytes(h, b.seq, adr::record_digest(b))),
    ensures
        g == h,
        a == b,
{
    let d = encoding::utf8("agentcreds-adr-chain-v1"@);
    let (da, db) = (adr::record_digest(a), adr::record_digest(b));
    let (sa, sb) = (encoding::le64(a.seq), encoding::le64(b.seq));
    assert(link_bytes(g, a.seq, da) == link_bytes(h, b.seq, db));
    encoding::lemma_assoc(d + g, sa, da);
    encoding::lemma_assoc(d + h, sb, db);
    encoding::lemma_split(d + g, d + h, sa + da, sb + db);
    encoding::lemma_split(d, d, g, h);
    encoding::lemma_le64_prefix(a.seq, b.seq, da, db);
    assert(adr::record_bytes(a) == adr::record_bytes(b));
    adr::digest_covers_the_whole_record(a, b);
}

proof fn lemma_head_len(log: Seq<DecisionView>)
    requires
        !crypto::breaks_on(hashed(log)),
    ensures
        chain_head(log).len() == 32,
{
    if log.len() == 0 {
        assert(hashed(log).contains(encoding::utf8("agentcreds-adr-chain-v1"@)));
    } else {
        let d = log.last();
        let x = link_bytes(chain_head(log.drop_last()), d.seq, adr::record_digest(d));
        assert(hashed(log).contains(x));
        assert(crypto::sha256_digest(x) == chain_head(log));
    }
}

proof fn lemma_tag_is_hashed(log: Seq<DecisionView>)
    ensures
        hashed(log).contains(encoding::utf8("agentcreds-adr-chain-v1"@)),
    decreases log.len(),
{
    if log.len() > 0 {
        lemma_tag_is_hashed(log.drop_last());
    }
}

proof fn lemma_not_genesis(log: Seq<DecisionView>)
    requires
        !crypto::breaks_on(hashed(log)),
        log.len() > 0,
    ensures
        chain_head(log) != genesis(),
{
    let d = encoding::utf8("agentcreds-adr-chain-v1"@);
    let l = log.last();
    let x = link_bytes(chain_head(log.drop_last()), l.seq, adr::record_digest(l));
    assert(x.len() > d.len());
    lemma_tag_is_hashed(log);
    assert(hashed(log).contains(x));
    if chain_head(log) == genesis() {
        assert(crypto::sha256_digest(x) == crypto::sha256_digest(d));
    }
}

/// A head binds the whole log below it: two logs with one head hold the same records in the same
/// order, unless SHA-256 fails on what is hashed for the two. So no record can be dropped,
/// reordered or changed unseen.
pub proof fn a_head_binds_the_whole_log(a: Seq<DecisionView>, b: Seq<DecisionView>)
    requires
        forall|i: int| 0 <= i < a.len() ==> adr::fits(#[trigger] a[i]),
        forall|i: int| 0 <= i < b.len() ==> adr::fits(#[trigger] b[i]),
        chain_head(a) == chain_head(b),
    ensures
        a == b || crypto::breaks_on(hashed(a).union(hashed(b))),
    decreases a.len(),
{
    let inputs = hashed(a).union(hashed(b));
    if !crypto::breaks_on(inputs) {
        if crypto::breaks_on(hashed(a)) {
            crypto::lemma_breaks_on_more(hashed(a), inputs);
        }
        if crypto::breaks_on(hashed(b)) {
            crypto::lemma_breaks_on_more(hashed(b), inputs);
        }
        if a.len() == 0 && b.len() == 0 {
            assert(a =~= b);
        } else if a.len() == 0 {
            lemma_not_genesis(b);
        } else if b.len() == 0 {
            lemma_not_genesis(a);
        } else {
            lemma_same_last(a, b);
        }
        if a.len() > 0 && b.len() > 0 {
            let (p, q) = (a.drop_last(), b.drop_last());
            a_head_binds_the_whole_log(p, q);
            if crypto::breaks_on(hashed(p).union(hashed(q))) {
                crypto::lemma_breaks_on_more(hashed(p).union(hashed(q)), inputs);
            }
            assert(a =~= p.push(a.last()));
            assert(b =~= q.push(b.last()));
        }
    }
}

proof fn lemma_same_last(a: Seq<DecisionView>, b: Seq<DecisionView>)
    requires
        a.len() > 0,
        b.len() > 0,
        adr::fits(a.last()),
        adr::fits(b.last()),
        chain_head(a) == chain_head(b),
        !crypto::breaks_on(hashed(a).union(hashed(b))),
    ensures
        a.last() == b.last(),
        chain_head(a.drop_last()) == chain_head(b.drop_last()),
{
    let inputs = hashed(a).union(hashed(b));
    let (p, q) = (a.drop_last(), b.drop_last());
    if crypto::breaks_on(hashed(p)) {
        crypto::lemma_breaks_on_more(hashed(p), inputs);
    }
    if crypto::breaks_on(hashed(q)) {
        crypto::lemma_breaks_on_more(hashed(q), inputs);
    }
    lemma_head_len(p);
    lemma_head_len(q);
    lemma_link(a.last(), b.last(), chain_head(p), chain_head(q), inputs);
}

/// The signed bytes bind a checkpoint's count, head and issuer: checkpoints with the same
/// bytes differ at most in their signatures.
pub proof fn a_checkpoint_binds_count_and_head(a: CheckpointView, b: CheckpointView)
    requires
        encoding::utf8(a.head).len() <= u64::MAX,
        encoding::utf8(b.head).len() <= u64::MAX,
        encoding::utf8(a.issuer_did).len() <= u64::MAX,
        encoding::utf8(b.issuer_did).len() <= u64::MAX,
        checkpoint_bytes(a.count, a.head, a.issuer_did) == checkpoint_bytes(
            b.count,
            b.head,
            b.issuer_did,
        ),
    ensures
        a == (CheckpointView { signature: a.signature, ..b }),
{
    let d = encoding::utf8("agentcreds-adr-checkpoint-v1"@);
    let none = Seq::<u8>::empty();
    let (ca, cb) = (encoding::le64(a.count), encoding::le64(b.count));
    let (ha, hb) = (encoding::text_field(a.head), encoding::text_field(b.head));
    let (ia, ib) = (encoding::text_field(a.issuer_did), encoding::text_field(b.issuer_did));
    encoding::lemma_assoc_five(d, ca, ha, ia, none);
    encoding::lemma_assoc_five(d, cb, hb, ib, none);
    assert(d + ca + ha + ia + none =~= d + ca + ha + ia);
    assert(d + cb + hb + ib + none =~= d + cb + hb + ib);
    encoding::lemma_split(d, d, ca + (ha + (ia + none)), cb + (hb + (ib + none)));
    encoding::lemma_le64_prefix(a.count, b.count, ha + (ia + none), hb + (ib + none));
    encoding::lemma_text_field_prefix(a.head, b.head, ia + none, ib + none);
    encoding::lemma_text_field_prefix(a.issuer_did, b.issuer_did, none, none);
}

// -- What a checkpoint and a record show -----------------------------------------------------------------

/// A checkpoint is accepted exactly where it names the anchor as its issuer and carries the Base64 of
/// a signature that verifies under the anchor's key over its digest; every refusal is
/// `InvalidVcProof`.
pub proof fn an_accepted_checkpoint_is_the_anchors(
    c: CheckpointView,
    anchor_did: Seq<char>,
    anchor_key: KeyView,
)
    ensures
        checkpoint_outcome(c, anchor_did, anchor_key) is Ok <==> {
            &&& c.issuer_did == anchor_did
            &&& crypto::base64_decoded(c.signature) is Ok
            &&& did::key_verifies(
                anchor_key,
                checkpoint_digest(c),
                crypto::base64_decoded(c.signature)->Ok_0,
            ) is Ok
        },
        checkpoint_outcome(c, anchor_did, anchor_key) is Err ==> checkpoint_outcome(
            c,
            anchor_did,
            anchor_key,
        )->Err_0 is InvalidVcProof,
{
}

/// A checkpoint's digest stands for one count, head and issuer, unless SHA-256 fails on the two.
pub proof fn a_checkpoint_digest_stands_for_one_state(a: CheckpointView, b: CheckpointView)
    requires
        encoding::utf8(a.head).len() <= u64::MAX,
        encoding::utf8(b.head).len() <= u64::MAX,
        encoding::utf8(a.issuer_did).len() <= u64::MAX,
        encoding::utf8(b.issuer_did).len() <= u64::MAX,
        checkpoint_digest(a) == checkpoint_digest(b),
    ensures
        a == (CheckpointView { signature: a.signature, ..b }) || crypto::breaks_on(
            set![
                checkpoint_bytes(a.count, a.head, a.issuer_did),
                checkpoint_bytes(b.count, b.head, b.issuer_did),
            ],
        ),
{
    let (x, y) = (
        checkpoint_bytes(a.count, a.head, a.issuer_did),
        checkpoint_bytes(b.count, b.head, b.issuer_did),
    );
    let inputs = set![x, y];
    if !crypto::breaks_on(inputs) {
        assert(inputs.contains(x) && inputs.contains(y));
        a_checkpoint_binds_count_and_head(a, b);
    }
}

/// Recording stamps a decision with the number of those before it and changes nothing else in it; the
/// stream then counts one more.
pub proof fn recording_stamps_and_counts(s: StreamView, d: DecisionView)
    requires
        s.count < u64::MAX,
    ensures
        stamped(d, s.count).seq == s.count,
        adr::says_the_same(stamped(d, s.count), d),
        advanced(s, d).count == s.count + 1,
        forall|log: Seq<DecisionView>| #[trigger]
            chain_head(log) == s.head ==> advanced(s, d).head == chain_head(
                log.push(stamped(d, s.count)),
            ),
{
    adr::digest_ignores_the_sequence_number(stamped(d, s.count), d);
    assert forall|log: Seq<DecisionView>| #[trigger] chain_head(log) == s.head implies advanced(
        s,
        d,
    ).head == chain_head(log.push(stamped(d, s.count))) by {
        assert(log.push(stamped(d, s.count)).drop_last() =~= log);
    }
}

/// A stream is resumed exactly from the hex of 32 bytes, with the count that was given.
pub proof fn a_stream_resumes_from_a_whole_head(count: u64, head: Seq<char>)
    ensures
        resumed(count, head) is Ok <==> crypto::is_hex(head) && head.len() == 64,
        resumed(count, head) is Ok ==> resumed(count, head)->Ok_0.count == count
            && resumed(count, head)->Ok_0.head == crypto::hex_bytes(head),
        resumed(count, head) is Err ==> resumed(count, head)->Err_0 is MalformedClaims,
{
}

/// A buffer always holds the record it was given last, and never more than its capacity.
pub proof fn a_buffer_holds_the_last_record(
    held: Seq<DecisionView>,
    d: DecisionView,
    capacity: nat,
)
    requires
        0 < capacity,
        held.len() <= capacity,
    ensures
        retained(held, d, capacity).len() <= capacity,
        retained(held, d, capacity).last() == d,
        held.len() < capacity ==> retained(held, d, capacity).drop_last() == held,
        held.len() == capacity ==> retained(held, d, capacity).drop_last() == held.skip(1),
{
    if held.len() < capacity {
        assert(retained(held, d, capacity).drop_last() =~= held);
    } else {
        assert(retained(held, d, capacity).drop_last() =~= held.skip(1));
    }
}

} // verus!
