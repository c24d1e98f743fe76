//! Resolving an accountable party to the humans behind it, without putting them in the
//! credential: a credential carries a version and a salted commitment, and the members stay
//! in the organization's own store.

use vstd::prelude::*;
use vstd::string::*;
use crate::crypto;
use crate::encoding;
use crate::error::{AgentCredsError, ErrorView};
use crate::strings;
use crate::text;

verus! {

/// The minimum salt length in characters: a commitment over a small, guessable membership list must not be
/// brute-forceable.
pub const MIN_SALT_LEN: usize = 16;

/// One revision of who is behind an accountable party. Held by the organization; only its
/// commitment travels.
#[derive(Debug, PartialEq, Eq)]
pub struct OwnershipRecord {
    party_id: String,
    version: u64,
    members: Vec<String>,
    salt: String,
}

/// An ownership record as mathematical values.
#[verifier::ext_equal]
pub struct OwnershipView {
    pub party_id: Seq<char>,
    pub version: u64,
    pub members: Seq<Seq<char>>,
    pub salt: Seq<char>,
}

impl View for OwnershipRecord {
    type V = OwnershipView;

    closed spec fn view(&self) -> OwnershipView {
        OwnershipView {
            party_id: self.party_id@,
            version: self.version,
            members: text::views(self.members@),
            salt: self.salt@,
        }
    }
}

impl Clone for OwnershipRecord {
    fn clone(&self) -> (r: Self)
        ensures
            r@ == self@,
    {
        OwnershipRecord {
            party_id: self.party_id.clone(),
            version: self.version,
            members: text::strings_clone(&self.members),
            salt: self.salt.clone(),
        }
    }
}

/// The bytes under a record's commitment.
pub open spec fn ownership_bytes(r: OwnershipView) -> Seq<u8> {
    encoding::utf8("agentcreds-ownership-commitment-v1"@) + encoding::text_field(r.party_id)
        + encoding::le64(r.version) + encoding::text_field(r.salt) + encoding::le64(
        r.members.len() as u64,
    ) + encoding::text_fields(r.members)
}

/// The commitment of a record.
pub open spec fn commitment_of(r: OwnershipView) -> Seq<char> {
    crypto::hex_text(crypto::sha256_digest(ownership_bytes(r)))
}

/// Why a record is refused.
pub open spec fn record_refused(party_id: Seq<char>, salt: Seq<char>) -> Option<ErrorView> {
    if text::all_blank(party_id) {
        Some(
            ErrorView::OutOfBounds {
                field: "party_id"@,
                detail: "an ownership record must name a party"@,
            },
        )
    } else if salt.len() < MIN_SALT_LEN {
        Some(
            ErrorView::OutOfBounds {
                field: "salt"@,
                detail: "ownership salt must be at least "@ + text::decimal(16)
                    + " chars - a short salt makes the commitment a membership oracle over a guessable list"@,
            },
        )
    } else {
        None
    }
}

impl OwnershipRecord {
    /// Build a record. `members` is sorted and de-duplicated; `salt` must be at least
    /// [`MIN_SALT_LEN`] characters.
    ///
    /// # Errors
    /// `OutOfBounds` if `party_id` is blank or the salt is too short.
    pub fn new(party_id: &str, version: u64, members: Vec<String>, salt: &str) -> (r: Result<
        Self,
        AgentCredsError,
    >)
        ensures
            match r {
                Ok(o) => {
                    &&& record_refused(party_id@, salt@) is None
                    &&& o@ == (OwnershipView {
                        party_id: party_id@,
                        version,
                        members: strings::listing(text::views(members@).to_set()),
                        salt: salt@,
                    })
                    &&& o@.members.to_set() == text::views(members@).to_set()
                },
                Err(e) => record_refused(party_id@, salt@) == Some(e@),
            },
    {
        if text::is_all_blank(party_id) {
            return Err(
                AgentCredsError::OutOfBounds {
                    field: "party_id",
                    detail: "an ownership record must name a party".to_owned(),
                },
            );
        }
        if salt.unicode_len() < MIN_SALT_LEN {
            let mut detail = "ownership salt must be at least ".to_owned();
            detail.append(text::u64_text(16).as_str());
            detail.append(
                " chars - a short salt makes the commitment a membership oracle over a guessable list",
            );
            return Err(AgentCredsError::OutOfBounds { field: "salt", detail });
        }
        Ok(
            OwnershipRecord {
                party_id: party_id.to_owned(),
                version,
                members: strings::sorted_distinct(&members),
                salt: salt.to_owned(),
            },
        )
    }

    /// The party this record resolves.
    #[must_use]
    pub fn party_id(&self) -> (r: &str)
        ensures
            r@ == self@.party_id,
    {
        self.party_id.as_str()
    }

    /// Which revision this is.
    #[must_use]
    pub fn version(&self) -> (r: u64)
        ensures
            r == self@.version,
    {
        self.version
    }

    /// The members, sorted. Personal data - keep it here, not in a credential.
    #[must_use]
    pub fn members(&self) -> (r: &Vec<String>)
        ensures
            text::views(r@) == self@.members,
    {
        &self.members
    }

    /// The salted commitment, hex-encoded. This is the only part that travels.
    #[must_use]
    pub fn commitment(&self) -> (r: String)
        ensures
            r@ == commitment_of(self@),
    {
        let mut m: Vec<u8> = Vec::new();
        encoding::put_bytes(&mut m, "agentcreds-ownership-commitment-v1".as_bytes());
        assert(m@ =~= encoding::utf8("agentcreds-ownership-commitment-v1"@));
        encoding::put_text(&mut m, self.party_id.as_str());
        encoding::put_u64(&mut m, self.version);
        encoding::put_text(&mut m, self.salt.as_str());
        encoding::put_u64(&mut m, self.members.len() as u64);
        encoding::put_texts(&mut m, &self.members);
        crypto::hex_encode(crypto::sha256(m.as_slice()).as_slice())
    }

    /// Whether this record is the one `commitment` was made over. The case of its digits makes
    /// no difference.
    #[must_use]
    pub fn matches(&self, commitment: &str) -> (r: bool)
        ensures
            r == text::same_letters(commitment_of(self@), commitment@),
    {
        text::eq_ignore_case(self.commitment().as_str(), commitment)
    }
}

/// A record matches its own commitment.
pub proof fn a_record_matches_its_commitment(r: OwnershipView)
    ensures
        text::same_letters(commitment_of(r), commitment_of(r)),
{
}

/// The commitment does not depend on the order in which the store returned the members, nor
/// on whether it returned one twice: records of the same members have the same commitment.
pub proof fn commitment_ignores_order_and_repetition(
    party_id: Seq<char>,
    version: u64,
    a: Seq<Seq<char>>,
    b: Seq<Seq<char>>,
    salt: Seq<char>,
)
    requires
        forall|x: Seq<char>| #[trigger] a.contains(x) <==> b.contains(x),
    ensures
        commitment_of(
            OwnershipView { party_id, version, members: strings::listing(a.to_set()), salt },
        ) == commitment_of(
            OwnershipView { party_id, version, members: strings::listing(b.to_set()), salt },
        ),
{
    assert(a.to_set() =~= b.to_set());
}

/// Whether a record fits the machine: its texts and members can be counted in 64 bits.
pub open spec fn fits(r: OwnershipView) -> bool {
    &&& encoding::utf8(r.party_id).len() <= u64::MAX
    &&& encoding::utf8(r.salt).len() <= u64::MAX
    &&& r.members.len() <= u64::MAX
    &&& forall|i: int|
        0 <= i < r.members.len() ==> encoding::utf8(#[trigger] r.members[i]).len() <= u64::MAX
}

/// The committed bytes bind all of a record: records with the same bytes are the same. A
/// commitment so changes with the party, the version, the salt and the members, unless SHA-256
/// gives different bytes the same digest.
pub proof fn commitment_binds_the_whole_record(a: OwnershipView, b: OwnershipView)
    requires
        fits(a),
        fits(b),
        ownership_bytes(a) == ownership_bytes(b),
    ensures
        a == b,
{
    let d = encoding::utf8("agentcreds-ownership-commitment-v1"@);
    let none = Seq::<u8>::empty();
    let (pa, pb) = (encoding::text_field(a.party_id), encoding::text_field(b.party_id));
    let (va, vb) = (encoding::le64(a.version), encoding::le64(b.version));
    let (sa, sb) = (encoding::text_field(a.salt), encoding::text_field(b.salt));
    let (na, nb) = (
        encoding::le64(a.members.len() as u64),
        encoding::le64(b.members.len() as u64),
    );
    let (ma, mb) = (encoding::text_fields(a.members), encoding::text_fields(b.members));
    encoding::lemma_assoc_six(d, pa, va, sa, na, ma);
    encoding::lemma_assoc_six(d, pb, vb, sb, nb, mb);
    encoding::lemma_split(d, d, pa + (va + (sa + (na + ma))), pb + (vb + (sb + (nb + mb))));
    encoding::lemma_text_field_prefix(
        a.party_id,
        b.party_id,
        va + (sa + (na + ma)),
        vb + (sb + (nb + mb)),
    );
    encoding::lemma_le64_prefix(a.version, b.version, sa + (na + ma), sb + (nb + mb));
    encoding::lemma_text_field_prefix(a.salt, b.salt, na + ma, nb + mb);
    encoding::lemma_le64_prefix(a.members.len() as u64, b.members.len() as u64, ma, mb);
    assert(ma + none =~= ma);
    assert(mb + none =~= mb);
    encoding::lemma_text_fields_prefix(a.members, b.members, none, none);
}

/// A record refuses the commitment of every other, in letters of either case: what matches the
/// commitments of two different records shows two byte strings with one SHA-256 digest.
pub proof fn a_record_refuses_the_commitment_of_another(
    a: OwnershipView,
    b: OwnershipView,
    commitment: Seq<char>,
)
    requires
        fits(a),
        fits(b),
        a != b,
        text::same_letters(commitment_of(a), commitment),
    ensures
        text::same_letters(commitment_of(b), commitment) ==> ownership_bytes(a) != ownership_bytes(b)
            && crypto::sha256_digest(ownership_bytes(a)) == crypto::sha256_digest(
            ownership_bytes(b),
        ),
{
    if ownership_bytes(a) == ownership_bytes(b) {
        commitment_binds_the_whole_record(a, b);
    }
    if text::same_letters(commitment_of(b), commitment) {
        let (x, y) = (
            crypto::sha256_digest(ownership_bytes(a)),
            crypto::sha256_digest(ownership_bytes(b)),
        );
        crypto::lemma_hex_case(x, y, commitment);
    }
}

/// An ownership record is made exactly where it names a party that is not blank and its salt has at
/// least sixteen characters.
pub proof fn a_record_names_a_party_and_is_salted(party_id: Seq<char>, salt: Seq<char>)
    ensures
        record_refused(party_id, salt) is None <==> !text::all_blank(party_id) && salt.len() >= 16,
        record_refused(party_id, salt) is Some ==> record_refused(party_id, salt)->0 is OutOfBounds,
{
}

/// A commitment stands for one record: records with one commitment name the same party in the same
/// version with the same members and salt, unless SHA-256 fails on the two.
pub proof fn a_commitment_stands_for_one_record(a: OwnershipView, b: OwnershipView)
    requires
        fits(a),
        fits(b),
        commitment_of(a) == commitment_of(b),
    ensures
        a == b || crypto::breaks_on(set![ownership_bytes(a), ownership_bytes(b)]),
{
    let inputs = set![ownership_bytes(a), ownership_bytes(b)];
    if !crypto::breaks_on(inputs) {
        assert(inputs.contains(ownership_bytes(a)) && inputs.contains(ownership_bytes(b)));
        crypto::lemma_hex_round_trip(crypto::sha256_digest(ownership_bytes(a)));
        crypto::lemma_hex_round_trip(crypto::sha256_digest(ownership_bytes(b)));
        commitment_binds_the_whole_record(a, b);
    }
}

} // verus!
