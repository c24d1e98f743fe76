//! A joint, privacy-preserving chain of custody across organisations.
//!
//! Each organisation keeps its raw records in a private log and shares only signed
//! commitments: salted hashes of its records. A compositor checks the signatures and merges
//! the commitments into one ordered chain of custody, with a root hash that all parties can
//! compare. An organisation can later reveal a single record, which is checked against its
//! published commitment.

pub mod compositor;

pub use crate::audit::compositor::{AuditCompositor, CompositeEntry};
use vstd::prelude::*;
use vstd::string::*;
use crate::crypto;
use crate::did;
use crate::did::{KeyView, TrustAnchor};
use crate::encoding;
use crate::error::{AgentCredsError, ErrorView};
use crate::signed;
use crate::text;
use crate::time;
use crate::time::Timestamp;

verus! {

// -- Records --------------------------------------------------------------------------------------------

/// One action an organisation logs locally. Stays private - only its commitment is shared. The
/// salt makes the commitment hide the action even from one who guesses likely values.
#[derive(Debug)]
pub struct AuditRecord {
    /// Shared correlation id (typically the delegation token's credential id).
    pub correlation_id: String,
    /// The organisation that logged this (its anchor DID).
    pub org_id: String,
    /// Sequence number within this correlation and organisation.
    pub seq: u64,
    /// DID of the agent that acted.
    pub agent_did: String,
    /// The action (e.g. a tool identifier).
    pub action: String,
    /// Outcome (e.g. `"allow"` / `"deny"` / a reason).
    pub outcome: String,
    /// When the action occurred.
    pub timestamp: Timestamp,
    /// Random salt.
    pub salt: Vec<u8>,
}

/// A record as mathematical values.
#[verifier::ext_equal]
pub struct RecordView {
    pub correlation_id: Seq<char>,
    pub org_id: Seq<char>,
    pub seq: u64,
    pub agent_did: Seq<char>,
    pub action: Seq<char>,
    pub outcome: Seq<char>,
    pub timestamp: int,
    pub salt: Seq<u8>,
}

impl View for AuditRecord {
    type V = RecordView;

    open spec fn view(&self) -> RecordView {
        RecordView {
            correlation_id: self.correlation_id@,
            org_id: self.org_id@,
            seq: self.seq,
            agent_did: self.agent_did@,
            action: self.action@,
            outcome: self.outcome@,
            timestamp: self.timestamp@,
            salt: self.salt@,
        }
    }
}

impl Clone for AuditRecord {
    fn clone(&self) -> (r: Self)
        ensures
            r@ == self@,
    {
        AuditRecord {
            correlation_id: self.correlation_id.clone(),
            org_id: self.org_id.clone(),
            seq: self.seq,
            agent_did: self.agent_did.clone(),
            action: self.action.clone(),
            outcome: self.outcome.clone(),
            timestamp: self.timestamp,
            salt: encoding::bytes_clone(self.salt.as_slice()),
        }
    }
}

/// The bytes of where a record stands.
pub open spec fn place_bytes(r: RecordView) -> Seq<u8> {
    encoding::text_field(r.correlation_id) + encoding::text_field(r.org_id) + encoding::le64(r.seq)
}

/// The bytes of what a record says.
pub open spec fn content_bytes(r: RecordView) -> Seq<u8> {
    encoding::text_field(r.agent_did) + encoding::text_field(r.action) + encoding::text_field(
        r.outcome,
    ) + encoding::le64_signed(time::second_of(r.timestamp) as i64) + encoding::field(r.salt)
}

/// The bytes under a record's commitment.
pub open spec fn record_bytes(r: RecordView) -> Seq<u8> {
    encoding::utf8("agentcreds-audit-record-v1"@) + place_bytes(r) + content_bytes(r)
}

/// The commitment to a record.
pub open spec fn commitment_of(r: RecordView) -> Seq<char> {
    crypto::hex_text(crypto::sha256_digest(record_bytes(r)))
}

impl AuditRecord {
    /// The salted commitment (hex SHA-256) shared in place of the raw record.
    pub fn commitment(&self) -> (r: String)
        ensures
            r@ == commitment_of(self@),
    {
        let mut place: Vec<u8> = Vec::new();
        encoding::put_text(&mut place, self.correlation_id.as_str());
        assert(place@ =~= encoding::text_field(self@.correlation_id));
        encoding::put_text(&mut place, self.org_id.as_str());
        encoding::put_u64(&mut place, self.seq);
        let mut content: Vec<u8> = Vec::new();
        encoding::put_text(&mut content, self.agent_did.as_str());
        assert(content@ =~= encoding::text_field(self@.agent_did));
        encoding::put_text(&mut content, self.action.as_str());
        encoding::put_text(&mut content, self.outcome.as_str());
        encoding::put_i64(&mut content, self.timestamp.timestamp());
        encoding::put_field(&mut content, self.salt.as_slice());
        let mut m: Vec<u8> = Vec::new();
        encoding::put_bytes(&mut m, "agentcreds-audit-record-v1".as_bytes());
        assert(m@ =~= encoding::utf8("agentcreds-audit-record-v1"@));
        encoding::put_bytes(&mut m, place.as_slice());
        encoding::put_bytes(&mut m, content.as_slice());
        crypto::hex_encode(crypto::sha256(m.as_slice()).as_slice())
    }
}

// -- Commitments ----------------------------------------------------------------------------------------

/// The privacy-preserving, signed form of an [`AuditRecord`] that an organisation shares.
/// Carries no raw payload - only the commitment hash plus routing metadata.
#[derive(Debug)]
pub struct AuditCommitment {
    /// Shared correlation id.
    pub correlation_id: String,
    /// The organisation that produced this (its anchor DID).
    pub org_id: String,
    /// Sequence number in that organisation's log.
    pub seq: u64,
    /// When the underlying action occurred.
    pub timestamp: Timestamp,
    /// SHA-256 commitment to the raw record.
    pub commitment: String,
    /// The organisation's anchor's signature over this commitment.
    pub signature: String,
}

/// A commitment as mathematical values.
#[verifier::ext_equal]
pub struct CommitmentView {
    pub correlation_id: Seq<char>,
    pub org_id: Seq<char>,
    pub seq: u64,
    pub timestamp: int,
    pub commitment: Seq<char>,
    pub signature: Seq<char>,
}

impl View for AuditCommitment {
    type V = CommitmentView;

    open spec fn view(&self) -> CommitmentView {
        CommitmentView {
            correlation_id: self.correlation_id@,
            org_id: self.org_id@,
            seq: self.seq,
            timestamp: self.timestamp@,
            commitment: self.commitment@,
            signature: self.signature@,
        }
    }
}

impl Clone for AuditCommitment {
    fn clone(&self) -> (r: Self)
        ensures
            r@ == self@,
    {
        AuditCommitment {
            correlation_id: self.correlation_id.clone(),
            org_id: self.org_id.clone(),
            seq: self.seq,
            timestamp: self.timestamp,
            commitment: self.commitment.clone(),
            signature: self.signature.clone(),
        }
    }
}

/// The bytes under a commitment's signature.
pub open spec fn signed_bytes(c: CommitmentView) -> Seq<u8> {
    encoding::utf8("agentcreds-audit-commitment-v1"@) + encoding::text_field(c.correlation_id)
        + encoding::text_field(c.org_id) + encoding::le64(c.seq) + encoding::le64_signed(
        time::second_of(c.timestamp) as i64,
    ) + encoding::text_field(c.commitment)
}

/// What a commitment's signature signs.
pub open spec fn commitment_digest(c: CommitmentView) -> Seq<u8> {
    crypto::sha256_digest(signed_bytes(c))
}

/// What checking a commitment against an anchor gives.
pub open spec fn commitment_outcome(
    c: CommitmentView,
    anchor_did: Seq<char>,
    anchor_key: KeyView,
) -> Result<(), ErrorView> {
    if c.org_id != anchor_did {
        Err(signed::bad_proof("commitment org_id does not match the anchor"@))
    } else {
        signed::base64_signed(
            c.signature,
            commitment_digest(c),
            anchor_key,
            "commitment signature does not verify"@,
        )
    }
}

impl AuditCommitment {
    fn signing_payload(&self) -> (r: Vec<u8>)
        ensures
            r@ == commitment_digest(self@),
    {
        let mut m: Vec<u8> = Vec::new();
        encoding::put_bytes(&mut m, "agentcreds-audit-commitment-v1".as_bytes());
        assert(m@ =~= encoding::utf8("agentcreds-audit-commitment-v1"@));
        encoding::put_text(&mut m, self.correlation_id.as_str());
        encoding::put_text(&mut m, self.org_id.as_str());
        encoding::put_u64(&mut m, self.seq);
        encoding::put_i64(&mut m, self.timestamp.timestamp());
        encoding::put_text(&mut m, self.commitment.as_str());
        crypto::sha256(m.as_slice())
    }

    /// Verify this commitment's signature against the producing organisation's anchor.
    ///
    /// # Errors
    /// `InvalidVcProof` on a bad signature or an organisation/anchor mismatch.
    pub fn verify(&self, org_anchor: &TrustAnchor) -> (r: Result<(), AgentCredsError>)
        ensures
            did::unit_view(r) == commitment_outcome(
                self@,
                org_anchor.did_text(),
                org_anchor.key(),
            ),
    {
        if !text::str_eq(self.org_id.as_str(), org_anchor.did()) {
            return Err(
                signed::proof_error("commitment org_id does not match the anchor".to_owned()),
            );
        }
        signed::verify_base64(
            self.signature.as_str(),
            self.signing_payload().as_slice(),
            org_anchor,
            "commitment signature does not verify",
        )
    }
}

// -- An organisation's log ------------------------------------------------------------------------------

/// An organisation's private, append-only log for one correlation id.
#[derive(Debug)]
pub struct AuditLog {
    correlation_id: String,
    org_id: String,
    records: Vec<AuditRecord>,
}

/// A log as mathematical values.
#[verifier::ext_equal]
pub struct LogView {
    pub correlation_id: Seq<char>,
    pub org_id: Seq<char>,
    pub records: Seq<RecordView>,
}

/// The views of some records.
pub open spec fn records_view(v: Seq<AuditRecord>) -> Seq<RecordView> {
    v.map_values(|r: AuditRecord| r@)
}

impl View for AuditLog {
    type V = LogView;

    closed spec fn view(&self) -> LogView {
        LogView {
            correlation_id: self.correlation_id@,
            org_id: self.org_id@,
            records: records_view(self.records@),
        }
    }
}

impl Clone for AuditLog {
    fn clone(&self) -> (r: Self)
        ensures
            r@ == self@,
    {
        let mut records: Vec<AuditRecord> = Vec::new();
        for i in 0..self.records.len()
            invariant
                records@.len() == i,
                forall|j: int| 0 <= j < i ==> (#[trigger] records@[j])@ == self.records@[j]@,
        {
            records.push(self.records[i].clone());
        }
        assert(records_view(records@) =~= records_view(self.records@));
        AuditLog {
            correlation_id: self.correlation_id.clone(),
            org_id: self.org_id.clone(),
            records,
        }
    }
}

/// Whether each record belongs to the log and is numbered by its place.
pub open spec fn well_kept(log: LogView) -> bool {
    forall|i: int|
        0 <= i < log.records.len() ==> (#[trigger] log.records[i]).seq == i
            && log.records[i].correlation_id == log.correlation_id && log.records[i].org_id
            == log.org_id
}

/// Whether a commitment is what an anchor shares of a record.
pub open spec fn shares(anchor: TrustAnchor, r: RecordView, c: CommitmentView) -> bool {
    &&& c.correlation_id == r.correlation_id
    &&& c.org_id == r.org_id
    &&& c.seq == r.seq
    &&& c.timestamp == r.timestamp
    &&& c.commitment == commitment_of(r)
    &&& signed::signature_given(anchor, commitment_digest(c), c.signature)
}

/// The commitment to a record, not signed.
pub open spec fn unsigned(r: RecordView) -> CommitmentView {
    CommitmentView {
        correlation_id: r.correlation_id,
        org_id: r.org_id,
        seq: r.seq,
        timestamp: r.timestamp,
        commitment: commitment_of(r),
        signature: Seq::<char>::empty(),
    }
}

impl AuditLog {
    /// A new log for `correlation_id`, owned by the organisation identified by `org_id` (its
    /// anchor DID).
    pub fn new(correlation_id: &str, org_id: &str) -> (r: Self)
        ensures
            r@.correlation_id == correlation_id@,
            r@.org_id == org_id@,
            r@.records == Seq::<RecordView>::empty(),
            well_kept(r@),
    {
        let r = AuditLog {
            correlation_id: correlation_id.to_owned(),
            org_id: org_id.to_owned(),
            records: Vec::new(),
        };
        assert(r@.records =~= Seq::<RecordView>::empty());
        r
    }

    /// Append an action, timestamped now. Returns the assigned sequence number. See
    /// [`record_at`](Self::record_at) to supply an explicit action time.
    pub fn record(&mut self, agent_did: &str, action: &str, outcome: &str) -> (r: u64)
        ensures
            r == old(self)@.records.len(),
            final(self)@.records.len() == old(self)@.records.len() + 1,
            final(self)@ == appended(
                old(self)@,
                agent_did@,
                action@,
                outcome@,
                final(self)@.records.last().timestamp,
                final(self)@.records.last().salt,
            ),
            final(self)@.records.last().salt.len() == 16,
            well_kept(old(self)@) ==> well_kept(final(self)@),
    {
        self.record_at(agent_did, action, outcome, Timestamp::now())
    }

    /// Append an action with an explicit `timestamp`. Use this when bridging an existing
    /// decision log into commitments: the decision's own time - not export time - is what
    /// belongs in the committed record and drives the order of the chain of custody. Returns
    /// the assigned sequence number.
    ///
    /// Of the salt only its length is stated: it is random.
    pub fn record_at(
        &mut self,
        agent_did: &str,
        action: &str,
        outcome: &str,
        timestamp: Timestamp,
    ) -> (r: u64)
        ensures
            r == old(self)@.records.len(),
            final(self)@.records.len() == old(self)@.records.len() + 1,
            final(self)@ == appended(
                old(self)@,
                agent_did@,
                action@,
                outcome@,
                timestamp@,
                final(self)@.records.last().salt,
            ),
            final(self)@.records.last().salt.len() == 16,
            well_kept(old(self)@) ==> well_kept(final(self)@),
    {
        let ghost before = self@;
        let seq: u64 = self.records.len() as u64;
        let record = AuditRecord {
            correlation_id: self.correlation_id.clone(),
            org_id: self.org_id.clone(),
            seq,
            agent_did: agent_did.to_owned(),
            action: action.to_owned(),
            outcome: outcome.to_owned(),
            timestamp,
            salt: crypto::random_bytes(16),
        };
        let ghost added = record@;
        self.records.push(record);
        assert(self@.records =~= before.records.push(added));
        assert(self@.records.last() == added);
        seq
    }

    /// Export signed [`AuditCommitment`]s to share with the compositor. The raw records stay
    /// here.
    ///
    /// # Errors
    /// `InvalidVcProof` if `anchor` does not match this log's organisation; the error of
    /// signing where that fails.
    pub fn export(&self, anchor: &TrustAnchor) -> (r: Result<Vec<AuditCommitment>, AgentCredsError>)
        ensures
            anchor.did_text() != self@.org_id ==> r is Err && r->Err_0@ == signed::bad_proof(
                "anchor does not match this log's org"@,
            ),
            anchor.did_text() == self@.org_id ==> match r {
                Ok(out) => {
                    &&& out@.len() == self@.records.len()
                    &&& forall|i: int|
                        0 <= i < out@.len() ==> shares(
                            *anchor,
                            self@.records[i],
                            (#[trigger] out@[i])@,
                        )
                },
                Err(e) => exists|i: int|
                    0 <= i < self@.records.len() && signed::signature_refused(
                        *anchor,
                        commitment_digest(unsigned(#[trigger] self@.records[i])),
                        e,
                    ),
            },
    {
        if !text::str_eq(anchor.did(), self.org_id.as_str()) {
            return Err(signed::proof_error("anchor does not match this log's org".to_owned()));
        }
        let mut out: Vec<AuditCommitment> = Vec::new();
        for i in 0..self.records.len()
            invariant
                anchor.did_text() == self@.org_id,
                self@.records == records_view(self.records@),
                out@.len() == i,
                forall|j: int|
                    0 <= j < i ==> shares(*anchor, self@.records[j], (#[trigger] out@[j])@),
        {
            let r = &self.records[i];
            assert(self@.records[i as int] == r@);
            let c = AuditCommitment {
                correlation_id: r.correlation_id.clone(),
                org_id: r.org_id.clone(),
                seq: r.seq,
                timestamp: r.timestamp,
                commitment: r.commitment(),
                signature: String::new(),
            };
            assert(c@.signature =~= Seq::<char>::empty());
            assert(c@ == unsigned(r@));
            match signed::sign_base64(anchor, c.signing_payload().as_slice()) {
                Ok(signature) => {
                    let c = AuditCommitment { signature, ..c };
                    assert(commitment_digest(c@) == commitment_digest(unsigned(r@)));
                    out.push(c);
                },
                Err(e) => {
                    return Err(e);
                },
            }
        }
        Ok(out)
    }

    /// Selectively reveal one raw record (e.g. to substantiate a disputed entry).
    pub fn revealed(&self, seq: u64) -> (r: Option<&AuditRecord>)
        ensures
            match r {
                Some(x) => seq < self@.records.len() && x@ == self@.records[seq as int],
                None => seq >= self@.records.len(),
            },
    {
        if seq < self.records.len() as u64 {
            assert(self@.records[seq as int] == self.records@[seq as int]@);
            Some(&self.records[seq as usize])
        } else {
            None
        }
    }

    /// Number of records logged.
    pub fn len(&self) -> (r: usize)
        ensures
            r == self@.records.len(),
    {
        self.records.len()
    }

    /// Whether the log is empty.
    pub fn is_empty(&self) -> (r: bool)
        ensures
            r == (self@.records.len() == 0),
    {
        self.records.len() == 0
    }
}

/// A log with one more record, numbered by its place.
pub open spec fn appended(
    log: LogView,
    agent_did: Seq<char>,
    action: Seq<char>,
    outcome: Seq<char>,
    timestamp: int,
    salt: Seq<u8>,
) -> LogView {
    LogView {
        records: log.records.push(
            RecordView {
                correlation_id: log.correlation_id,
                org_id: log.org_id,
                seq: log.records.len() as u64,
                agent_did,
                action,
                outcome,
                timestamp,
                salt,
            },
        ),
        ..log
    }
}

// -- What a commitment binds ------------------------------------------------------------------------------

/// Whether a record fits the machine.
pub open spec fn fits(r: RecordView) -> bool {
    &&& time::time_in_range(r.timestamp)
    &&& encoding::utf8(r.correlation_id).len() <= u64::MAX
    &&& encoding::utf8(r.org_id).len() <= u64::MAX
    &&& encoding::utf8(r.agent_did).len() <= u64::MAX
    &&& encoding::utf8(r.action).len() <= u64::MAX
    &&& encoding::utf8(r.outcome).len() <= u64::MAX
    &&& r.salt.len() <= u64::MAX
}

/// Two records with one commitment are the same record, to the second, unless SHA-256 fails on
/// the two.
/// So a record that was changed does not match the commitment to what was logged.
pub proof fn a_commitment_binds_its_record(a: RecordView, b: RecordView)
    requires
        fits(a),
        fits(b),
        commitment_of(a) == commitment_of(b),
    ensures
        crypto::breaks_on(set![record_bytes(a), record_bytes(b)]) || (time::second_of(a.timestamp) == time::second_of(b.timestamp) && a
            == (RecordView { timestamp: a.timestamp, ..b })),
{
    crypto::lemma_hex_round_trip(crypto::sha256_digest(record_bytes(a)));
    crypto::lemma_hex_round_trip(crypto::sha256_digest(record_bytes(b)));
    let inputs = set![record_bytes(a), record_bytes(b)];
    if !crypto::breaks_on(inputs) {
        assert(inputs.contains(record_bytes(a)) && inputs.contains(record_bytes(b)));
        assert(crypto::sha256_digest(record_bytes(a)) == crypto::sha256_digest(record_bytes(b)));
        assert(record_bytes(a) == record_bytes(b));
        let d = encoding::utf8("agentcreds-audit-record-v1"@);
        encoding::lemma_assoc(d, place_bytes(a), content_bytes(a));
        encoding::lemma_assoc(d, place_bytes(b), content_bytes(b));
        encoding::lemma_split(
            d,
            d,
            place_bytes(a) + content_bytes(a),
            place_bytes(b) + content_bytes(b),
        );
        lemma_place_prefix(a, b, content_bytes(a), content_bytes(b));
        lemma_content(a, b);
    }
}

proof fn lemma_place_prefix(a: RecordView, b: RecordView, x: Seq<u8>, y: Seq<u8>)
    requires
        fits(a),
        fits(b),
        place_bytes(a) + x == place_bytes(b) + y,
    ensures
        a.correlation_id == b.correlation_id,
        a.org_id == b.org_id,
        a.seq == b.seq,
        x == y,
{
    let (ca, cb) = (encoding::text_field(a.correlation_id), encoding::text_field(b.correlation_id));
    let (oa, ob) = (encoding::text_field(a.org_id), encoding::text_field(b.org_id));
    let (sa, sb) = (encoding::le64(a.seq), encoding::le64(b.seq));
    encoding::lemma_assoc(ca + oa, sa, x);
    encoding::lemma_assoc(cb + ob, sb, y);
    encoding::lemma_assoc(ca, oa, sa + x);
    encoding::lemma_assoc(cb, ob, sb + y);
    encoding::lemma_text_field_prefix(
        a.correlation_id,
        b.correlation_id,
        oa + (sa + x),
        ob + (sb + y),
    );
    encoding::lemma_text_field_prefix(a.org_id, b.org_id, sa + x, sb + y);
    encoding::lemma_le64_prefix(a.seq, b.seq, x, y);
}

proof fn lemma_content(a: RecordView, b: RecordView)
    requires
        fits(a),
        fits(b),
        content_bytes(a) == content_bytes(b),
    ensures
        a.agent_did == b.agent_did,
        a.action == b.action,
        a.outcome == b.outcome,
        time::second_of(a.timestamp) == time::second_of(b.timestamp),
        a.salt == b.salt,
{
    let none = Seq::<u8>::empty();
    let (ga, gb) = (encoding::text_field(a.agent_did), encoding::text_field(b.agent_did));
    let (ca, cb) = (encoding::text_field(a.action), encoding::text_field(b.action));
    let (oa, ob) = (encoding::text_field(a.outcome), encoding::text_field(b.outcome));
    let (ma, mb) = (time::second_of(a.timestamp) as i64, time::second_of(b.timestamp) as i64);
    let (ta, tb) = (encoding::le64_signed(ma), encoding::le64_signed(mb));
    let (sa, sb) = (encoding::field(a.salt), encoding::field(b.salt));
    encoding::lemma_assoc_five(ga, ca, oa, ta, sa);
    encoding::lemma_assoc_five(gb, cb, ob, tb, sb);
    encoding::lemma_text_field_prefix(
        a.agent_did,
        b.agent_did,
        ca + (oa + (ta + sa)),
        cb + (ob + (tb + sb)),
    );
    encoding::lemma_text_field_prefix(a.action, b.action, oa + (ta + sa), ob + (tb + sb));
    encoding::lemma_text_field_prefix(a.outcome, b.outcome, ta + sa, tb + sb);
    encoding::lemma_le64_signed_prefix(ma, mb, sa, sb);
    assert(sa + none =~= sa);
    assert(sb + none =~= sb);
    encoding::lemma_field_prefix(a.salt, b.salt, none, none);
}

// -- What a commitment shows --------------------------------------------------------------------------

/// A commitment is accepted exactly where it names the anchor's organisation and carries the Base64 of
/// a signature that verifies under the anchor's key over its digest; every refusal is
/// `InvalidVcProof`.
pub proof fn an_accepted_commitment_is_its_organisations(
    c: CommitmentView,
    anchor_did: Seq<char>,
    anchor_key: KeyView,
)
    ensures
        commitment_outcome(c, anchor_did, anchor_key) is Ok <==> {
            &&& c.org_id == anchor_did
            &&& crypto::base64_decoded(c.signature) is Ok
            &&& did::key_verifies(
                anchor_key,
                commitment_digest(c),
                crypto::base64_decoded(c.signature)->Ok_0,
            ) is Ok
        },
        commitment_outcome(c, anchor_did, anchor_key) is Err ==> commitment_outcome(
            c,
            anchor_did,
            anchor_key,
        )->Err_0 is InvalidVcProof,
{
}

/// Whether a commitment fits the machine.
pub open spec fn commitment_fits(c: CommitmentView) -> bool {
    &&& time::time_in_range(c.timestamp)
    &&& encoding::utf8(c.correlation_id).len() <= u64::MAX
    &&& encoding::utf8(c.org_id).len() <= u64::MAX
    &&& encoding::utf8(c.commitment).len() <= u64::MAX
}

/// A commitment's digest binds what it says: commitments with one digest have the same correlation
/// id, organisation, sequence number and hash, in the same second, unless SHA-256 fails on the two.
pub proof fn a_commitment_digest_binds_the_commitment(a: CommitmentView, b: CommitmentView)
    requires
        commitment_fits(a),
        commitment_fits(b),
        commitment_digest(a) == commitment_digest(b),
    ensures
        (a == (CommitmentView { signature: a.signature, timestamp: a.timestamp, ..b })
            && time::second_of(a.timestamp) == time::second_of(b.timestamp)) || crypto::breaks_on(
            set![signed_bytes(a), signed_bytes(b)],
        ),
{
    let inputs = set![signed_bytes(a), signed_bytes(b)];
    if !crypto::breaks_on(inputs) {
        assert(inputs.contains(signed_bytes(a)) && inputs.contains(signed_bytes(b)));
        let none = Seq::<u8>::empty();
        let d = encoding::utf8("agentcreds-audit-commitment-v1"@);
        let (c_a, c_b) = (
            encoding::text_field(a.correlation_id),
            encoding::text_field(b.correlation_id),
        );
        let (o_a, o_b) = (encoding::text_field(a.org_id), encoding::text_field(b.org_id));
        let (s_a, s_b) = (encoding::le64(a.seq), encoding::le64(b.seq));
        let (m, n) = (time::second_of(a.timestamp) as i64, time::second_of(b.timestamp) as i64);
        let (t_a, t_b) = (encoding::le64_signed(m), encoding::le64_signed(n));
        let (h_a, h_b) = (encoding::text_field(a.commitment), encoding::text_field(b.commitment));
        encoding::lemma_assoc_six(d, c_a, o_a, s_a, t_a, h_a);
        encoding::lemma_assoc_six(d, c_b, o_b, s_b, t_b, h_b);
        let (u_a, u_b) = (s_a + (t_a + h_a), s_b + (t_b + h_b));
        encoding::lemma_split(d, d, c_a + (o_a + u_a), c_b + (o_b + u_b));
        encoding::lemma_text_field_prefix(
            a.correlation_id,
            b.correlation_id,
            o_a + u_a,
            o_b + u_b,
        );
        encoding::lemma_text_field_prefix(a.org_id, b.org_id, u_a, u_b);
        encoding::lemma_le64_prefix(a.seq, b.seq, t_a + h_a, t_b + h_b);
        encoding::lemma_le64_signed_prefix(m, n, h_a, h_b);
        assert(h_a + none =~= h_a);
        assert(h_b + none =~= h_b);
        encoding::lemma_text_field_prefix(a.commitment, b.commitment, none, none);
    }
}

/// What an organisation shares of a record says when and where it was logged and commits to it, and
/// where the anchor holds its own key, whoever checks it against that anchor accepts it.
pub proof fn a_shared_commitment_is_accepted(anchor: TrustAnchor, r: RecordView, c: CommitmentView)
    requires
        shares(anchor, r, c),
    ensures
        c.correlation_id == r.correlation_id,
        c.org_id == r.org_id,
        c.seq == r.seq,
        c.timestamp == r.timestamp,
        c.commitment == commitment_of(r),
        anchor.in_software() && r.org_id == anchor.did_text() ==> commitment_outcome(
            c,
            anchor.did_text(),
            anchor.key(),
        ) is Ok,
{
}

/// Logging adds one record at the end, numbered by its place, with what was logged, and leaves those
/// before it alone; a well-kept log stays so.
pub proof fn logging_adds_one_record(
    log: LogView,
    agent_did: Seq<char>,
    action: Seq<char>,
    outcome: Seq<char>,
    timestamp: int,
    salt: Seq<u8>,
)
    requires
        log.records.len() <= u64::MAX,
    ensures
        ({
            let after = appended(log, agent_did, action, outcome, timestamp, salt);
            let r = after.records.last();
            &&& after.correlation_id == log.correlation_id && after.org_id == log.org_id
            &&& after.records.drop_last() == log.records
            &&& r.seq == log.records.len()
            &&& r.correlation_id == log.correlation_id && r.org_id == log.org_id
            &&& r.agent_did == agent_did && r.action == action && r.outcome == outcome
            &&& r.timestamp == timestamp && r.salt == salt
            &&& well_kept(log) ==> well_kept(after)
        }),
{
    let after = appended(log, agent_did, action, outcome, timestamp, salt);
    assert(after.records.drop_last() =~= log.records);
    if well_kept(log) {
        assert forall|i: int| 0 <= i < after.records.len() implies (
        #[trigger] after.records[i]).seq == i && after.records[i].correlation_id
            == after.correlation_id && after.records[i].org_id == after.org_id by {
            if i < log.records.len() {
                assert(after.records[i] == log.records[i]);
            }
        }
    }
}

} // verus!
