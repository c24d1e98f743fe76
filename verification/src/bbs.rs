//! BBS+ selectively-disclosable, unlinkable capability credentials.
//!
//! The issuer signs the ordered messages `iss`, `sub`, `exp`, `vct` and one for each claim.
//! The holder derives a zero-knowledge proof that reveals the first four and a choice of the
//! claims; each proof is freshly randomized. The verifier checks it against the issuer's
//! public key and learns only what was revealed.

use vstd::prelude::*;
use vstd::string::*;
use crate::crypto;
use crate::crypto::SecretBytes;
use crate::did;
use crate::did::TrustAnchor;
use crate::encoding;
use crate::error::{AgentCredsError, ErrorView};
use crate::json;
use crate::json::{Json, JsonMap, JsonView};
use crate::text;
use crate::time;
use crate::time::Timestamp;

pub mod proofs;

verus! {

/// The verifiable credential type of BBS+ capabilities.
pub const VCT: &'static str = "AgentCredsCapability";

/// The issuer name of an issuer that is not bound to a DID anchor.
pub const UNBOUND_ISSUER: &'static str = "bbs-issuer";

/// The number of messages that are always revealed.
pub const REGISTERED: usize = 4;

/// The bytes of the label that the public signature parameters are hashed from.
pub open spec fn param_label() -> Seq<u8> {
    encoding::utf8("agentcreds-bbs-params-v1"@)
}

/// A BBS+ failure.
pub open spec fn bbs_failure(reason: Seq<char>) -> ErrorView {
    ErrorView::CryptoError { reason: "bbs+: "@ + reason }
}

fn bbs_error(reason: &str) -> (r: AgentCredsError)
    ensures
        r@ == bbs_failure(reason@),
{
    let mut s = "bbs+: ".to_owned();
    s.append(reason);
    AgentCredsError::CryptoError { reason: s }
}

// -- Binding to an anchor ------------------------------------------------------------------------

/// The bytes that an anchor signs to bind a BBS+ key to its DID.
pub open spec fn binding_bytes(did: Seq<char>, key: Seq<u8>) -> Seq<u8> {
    encoding::utf8("agentcreds-bbs-issuer-binding-v1"@) + encoding::text_field(did) + key
}

/// The bytes that an anchor signs to bind a BBS+ key to its DID.
pub fn binding_payload(did: &str, bbs_public_key: &[u8]) -> (r: Vec<u8>)
    ensures
        r@ == binding_bytes(did@, bbs_public_key@),
{
    let mut m: Vec<u8> = Vec::new();
    encoding::put_bytes(&mut m, "agentcreds-bbs-issuer-binding-v1".as_bytes());
    assert(m@ =~= encoding::utf8("agentcreds-bbs-issuer-binding-v1"@));
    encoding::put_text(&mut m, did);
    encoding::put_bytes(&mut m, bbs_public_key);
    m
}

/// A public key with its binding, as mathematical values.
#[verifier::ext_equal]
pub struct BbsKeyView {
    pub bytes: Seq<u8>,
    pub did: Seq<char>,
    pub attestation: Seq<u8>,
}

/// Whether a key carries a binding to a DID anchor.
pub open spec fn bound(k: BbsKeyView) -> bool {
    k.did != "bbs-issuer"@ && k.attestation.len() > 0
}

/// What verifying a key's binding gives: the anchor that the DID names must have signed it.
pub open spec fn binding_verifies(k: BbsKeyView) -> Result<(), ErrorView> {
    if !bound(k) {
        Err(
            ErrorView::InvalidDidSignature {
                reason: "BBS+ public key carries no DID-anchor binding"@,
            },
        )
    } else {
        match did::did_key_of(k.did) {
            Err(e) => Err(e),
            Ok(anchor) => did::key_verifies(
                anchor,
                binding_bytes(k.did, k.bytes),
                k.attestation,
            ),
        }
    }
}

/// A BBS+ issuer public key, optionally carrying its binding to a DID anchor.
#[derive(Debug)]
pub struct BbsPublicKey {
    bytes: Vec<u8>,
    did: String,
    attestation: Vec<u8>,
}

impl View for BbsPublicKey {
    type V = BbsKeyView;

    closed spec fn view(&self) -> BbsKeyView {
        BbsKeyView { bytes: self.bytes@, did: self.did@, attestation: self.attestation@ }
    }
}

impl Clone for BbsPublicKey {
    fn clone(&self) -> (r: Self)
        ensures
            r@ == self@,
    {
        BbsPublicKey {
            bytes: encoding::bytes_clone(self.bytes.as_slice()),
            did: self.did.clone(),
            attestation: encoding::bytes_clone(self.attestation.as_slice()),
        }
    }
}

impl BbsPublicKey {
    /// Raw canonical-serialized public key bytes.
    pub fn as_bytes(&self) -> (r: &[u8])
        ensures
            r@ == self@.bytes,
    {
        self.bytes.as_slice()
    }

    /// Reconstruct an unbound key from raw bytes.
    pub fn from_bytes(bytes: Vec<u8>) -> (r: Self)
        ensures
            r@ == (BbsKeyView {
                bytes: bytes@,
                did: "bbs-issuer"@,
                attestation: Seq::<u8>::empty(),
            }),
    {
        let attestation: Vec<u8> = Vec::new();
        assert(attestation@ =~= Seq::<u8>::empty());
        BbsPublicKey { bytes, did: UNBOUND_ISSUER.to_owned(), attestation }
    }

    /// Reconstruct a key with the binding that travels with it. Nothing is checked here.
    pub fn from_parts(bytes: Vec<u8>, did: String, attestation: Vec<u8>) -> (r: Self)
        ensures
            r@ == (BbsKeyView { bytes: bytes@, did: did@, attestation: attestation@ }),
    {
        BbsPublicKey { bytes, did, attestation }
    }

    /// The DID this key is bound to (or `"bbs-issuer"` if unbound).
    pub fn did(&self) -> (r: &str)
        ensures
            r@ == self@.did,
    {
        self.did.as_str()
    }

    /// The anchor's signature that binds the key, empty if unbound.
    pub fn attestation(&self) -> (r: &[u8])
        ensures
            r@ == self@.attestation,
    {
        self.attestation.as_slice()
    }

    /// Whether this key carries a DID-anchor binding.
    pub fn is_bound(&self) -> (r: bool)
        ensures
            r == bound(self@),
    {
        !text::str_eq(self.did.as_str(), UNBOUND_ISSUER) && self.attestation.len() > 0
    }

    /// Verify the key is attested by its DID anchor, reconstructed from the `did:key`
    /// identifier.
    ///
    /// # Errors
    /// `InvalidDidSignature` if the key is unbound or the attestation does not verify;
    /// `InvalidKeyMaterial` if the DID is not a `did:key`.
    pub fn verify_binding(&self) -> (r: Result<(), AgentCredsError>)
        ensures
            did::unit_view(r) == binding_verifies(self@),
    {
        if !self.is_bound() {
            return Err(
                AgentCredsError::InvalidDidSignature {
                    reason: "BBS+ public key carries no DID-anchor binding".to_owned(),
                },
            );
        }
        let anchor = match TrustAnchor::from_did_key(self.did.as_str()) {
            Ok(a) => a,
            Err(e) => {
                return Err(e);
            },
        };
        let payload = binding_payload(self.did.as_str(), self.bytes.as_slice());
        anchor.verify_signature(payload.as_slice(), self.attestation.as_slice())
    }
}

// -- Issuers ---------------------------------------------------------------------------------------

/// A BBS+ issuer: a BLS12-381 key pair, optionally bound to a DID anchor.
pub struct BbsIssuer {
    secret: SecretBytes,
    public: Vec<u8>,
    did: String,
    attestation: Vec<u8>,
}

impl BbsIssuer {
    /// The issuer's public key with its binding.
    pub closed spec fn key(&self) -> BbsKeyView {
        BbsKeyView { bytes: self.public@, did: self.did@, attestation: self.attestation@ }
    }

    /// The issuer's secret key.
    pub closed spec fn secret_key(&self) -> Seq<u8> {
        crypto::secret_bytes(self.secret)
    }

    #[verifier::type_invariant]
    spec fn paired(&self) -> bool {
        self.public@ == proofs::bbs_public(param_label(), crypto::secret_bytes(self.secret))
            && proofs::bbs_key_decodes(self.public@) is Ok
    }

    /// Generate an unbound issuer, identified only by its public key.
    pub fn generate() -> (r: Self)
        ensures
            r.key().did == "bbs-issuer"@,
            !bound(r.key()),
    {
        let (secret, public) = proofs::generate("agentcreds-bbs-params-v1".as_bytes());
        BbsIssuer {
            secret: SecretBytes::new(secret),
            public,
            did: UNBOUND_ISSUER.to_owned(),
            attestation: Vec::new(),
        }
    }

    /// Generate an issuer bound to a DID anchor: the anchor signs an attestation over the
    /// BBS+ public key. Issued credentials carry the anchor's DID as their `iss`.
    ///
    /// # Errors
    /// Whatever the anchor's signer returns.
    pub fn for_anchor(anchor: &TrustAnchor) -> (r: Result<Self, AgentCredsError>)
        ensures
            anchor.in_software() && anchor.key().algorithm is Ed25519 ==> r is Ok,
            r is Ok ==> {
                let k = r->Ok_0.key();
                &&& k.did == anchor.did_text()
                &&& exists|sig: Result<Vec<u8>, AgentCredsError>| #[trigger]
                    anchor.may_sign(binding_bytes(k.did, k.bytes), sig) && sig is Ok
                        && sig->Ok_0@ == k.attestation
                &&& anchor.in_software() ==> did::key_verifies(
                    anchor.key(),
                    binding_bytes(k.did, k.bytes),
                    k.attestation,
                ) is Ok
            },
            r is Err ==> exists|public: Seq<u8>|
                anchor.may_sign(
                    #[trigger] binding_bytes(anchor.did_text(), public),
                    Err::<Vec<u8>, AgentCredsError>(r->Err_0),
                ),
    {
        let (secret, public) = proofs::generate("agentcreds-bbs-params-v1".as_bytes());
        let payload = binding_payload(anchor.did(), public.as_slice());
        let answer = anchor.sign(payload.as_slice());
        let ghost given = answer;
        match answer {
            Ok(attestation) => {
                assert(anchor.may_sign(binding_bytes(anchor.did_text(), public@), given));
                Ok(
                    BbsIssuer {
                        secret: SecretBytes::new(secret),
                        public,
                        did: anchor.did().to_owned(),
                        attestation,
                    },
                )
            },
            Err(e) => Err(e),
        }
    }

    /// The issuer's DID (the bound anchor's DID, or `"bbs-issuer"` if unbound).
    pub fn did(&self) -> (r: &str)
        ensures
            r@ == self.key().did,
    {
        self.did.as_str()
    }

    /// This issuer's public key, to hand to verifiers, with its binding if it has one.
    pub fn public_key(&self) -> (r: BbsPublicKey)
        ensures
            r@ == self.key(),
            r@.bytes == proofs::bbs_public(param_label(), self.secret_key()),
            proofs::bbs_key_decodes(r@.bytes) is Ok,
    {
        proof {
            use_type_invariant(self);
        }
        BbsPublicKey {
            bytes: encoding::bytes_clone(self.public.as_slice()),
            did: self.did.clone(),
            attestation: encoding::bytes_clone(self.attestation.as_slice()),
        }
    }
}

// -- Messages ----------------------------------------------------------------------------------------

/// A named value.
pub type Named = (Seq<char>, JsonView);

/// A whole number as a JSON number.
pub open spec fn number_view(n: i64) -> JsonView {
    if n >= 0 {
        JsonView::Whole(n as u64)
    } else {
        JsonView::Negative(n)
    }
}

fn number(n: i64) -> (r: Json)
    ensures
        r@ == number_view(n),
{
    if n >= 0 {
        Json::Whole(n as u64)
    } else {
        Json::Negative(n)
    }
}

/// The messages of a credential, in their signed order.
pub open spec fn messages_of(
    issuer_id: Seq<char>,
    subject: Seq<char>,
    exp: i64,
    claims: Seq<Named>,
) -> Seq<Named> {
    seq![
        ("iss"@, JsonView::Text(issuer_id)),
        ("sub"@, JsonView::Text(subject)),
        ("exp"@, number_view(exp)),
        ("vct"@, JsonView::Text("AgentCredsCapability"@)),
    ] + claims
}

/// The text of a message: its name, an equals sign and its compact text.
pub open spec fn message_text(m: Named) -> Seq<char> {
    m.0 + "="@ + json::compact(m.1)
}

/// The digest of a message.
pub open spec fn message_digest(m: Named) -> Seq<u8> {
    crypto::sha256_digest(encoding::utf8(message_text(m)))
}

/// The digests of messages.
pub open spec fn digests_of(v: Seq<Named>) -> Seq<Seq<u8>> {
    v.map_values(|m: Named| message_digest(m))
}

/// The digest of a message.
pub fn encode_message(name: &str, value: &Json) -> (r: Vec<u8>)
    ensures
        r@ == message_digest((name@, value@)),
{
    let mut s = name.to_owned();
    s.append("=");
    s.append(json::compact_text(value).as_str());
    crypto::sha256(s.as_str().as_bytes())
}

/// The bytes under a proof's challenge: each of the domain tag, what the prover committed to
/// and the nonce behind its length.
pub open spec fn challenge_bytes(transcript: Seq<u8>, nonce: Seq<u8>) -> Seq<u8> {
    encoding::field(encoding::utf8("agentcreds-bbs-challenge-v1"@)) + encoding::field(transcript)
        + encoding::field(nonce)
}

/// The challenge of a proof.
pub open spec fn challenge_of(transcript: Seq<u8>, nonce: Seq<u8>) -> Seq<u8> {
    crypto::sha256_digest(challenge_bytes(transcript, nonce))
}

/// The challenge of a proof.
pub fn challenge_from(transcript: &[u8], nonce: &[u8]) -> (r: Vec<u8>)
    ensures
        r@ == challenge_of(transcript@, nonce@),
{
    let mut m: Vec<u8> = Vec::new();
    encoding::put_field(&mut m, "agentcreds-bbs-challenge-v1".as_bytes());
    assert(m@ =~= encoding::field(encoding::utf8("agentcreds-bbs-challenge-v1"@)));
    encoding::put_field(&mut m, transcript);
    encoding::put_field(&mut m, nonce);
    crypto::sha256(m.as_slice())
}

/// The digests of a credential's messages.
fn build_messages(issuer_id: &str, subject: &str, exp: i64, claims: &Vec<(String, Json)>) -> (r:
    Vec<Vec<u8>>)
    ensures
        proofs::byte_views(r@) == digests_of(
            messages_of(issuer_id@, subject@, exp, json::pair_views(claims@)),
        ),
        r@.len() == 4 + claims@.len(),
{
    let ghost all = messages_of(issuer_id@, subject@, exp, json::pair_views(claims@));
    let mut out: Vec<Vec<u8>> = Vec::new();
    out.push(encode_message("iss", &Json::Text(issuer_id.to_owned())));
    out.push(encode_message("sub", &Json::Text(subject.to_owned())));
    out.push(encode_message("exp", &number(exp)));
    out.push(encode_message("vct", &Json::Text(VCT.to_owned())));
    assert(proofs::byte_views(out@) =~= digests_of(all.take(4)));
    for i in 0..claims.len()
        invariant
            all == messages_of(issuer_id@, subject@, exp, json::pair_views(claims@)),
            proofs::byte_views(out@) == digests_of(all.take(4 + i)),
            out@.len() == 4 + i,
    {
        let ghost before = proofs::byte_views(out@);
        let d = encode_message(claims[i].0.as_str(), &claims[i].1);
        let ghost x = d@;
        out.push(d);
        proof {
            assert(json::pair_views(claims@)[i as int] == (
                claims@[i as int].0@,
                claims@[i as int].1@,
            ));
            assert(all[4 + i] == json::pair_views(claims@)[i as int]);
            assert(proofs::byte_views(out@) =~= before.push(x));
            assert(all.take(4 + i + 1) =~= all.take(4 + i).push(all[4 + i]));
            assert(digests_of(all.take(4 + i + 1)) =~= digests_of(all.take(4 + i)).push(x));
        }
    }
    assert(all.take(all.len() as int) =~= all);
    out
}

// -- Credentials -------------------------------------------------------------------------------------

/// A BBS+-signed capability credential, which the holder derives selective-disclosure proofs
/// from.
#[derive(Debug)]
pub struct BbsCredential {
    /// The issuer's DID, or the name of an unbound issuer.
    pub issuer_id: String,
    /// The subject's DID.
    pub subject: String,
    /// Expiry, Unix seconds.
    pub expires_at: i64,
    /// Disclosable claims, in signed order.
    pub claims: Vec<(String, Json)>,
    /// The signature over the messages.
    pub signature: Vec<u8>,
}

/// A credential as mathematical values.
#[verifier::ext_equal]
pub struct BbsCredentialView {
    pub issuer_id: Seq<char>,
    pub subject: Seq<char>,
    pub expires_at: i64,
    pub claims: Seq<Named>,
    pub signature: Seq<u8>,
}

impl View for BbsCredential {
    type V = BbsCredentialView;

    open spec fn view(&self) -> BbsCredentialView {
        BbsCredentialView {
            issuer_id: self.issuer_id@,
            subject: self.subject@,
            expires_at: self.expires_at,
            claims: json::pair_views(self.claims@),
            signature: self.signature@,
        }
    }
}

impl Clone for BbsCredential {
    fn clone(&self) -> (r: Self)
        ensures
            r@ == self@,
    {
        BbsCredential {
            issuer_id: self.issuer_id.clone(),
            subject: self.subject.clone(),
            expires_at: self.expires_at,
            claims: json::pairs_clone(&self.claims),
            signature: encoding::bytes_clone(self.signature.as_slice()),
        }
    }
}

/// The messages of a credential.
pub open spec fn credential_messages(c: BbsCredentialView) -> Seq<Named> {
    messages_of(c.issuer_id, c.subject, c.expires_at, c.claims)
}

/// A message that a presentation reveals.
#[derive(Debug)]
pub struct RevealedMessage {
    /// Its index among the messages.
    pub index: usize,
    /// Its name.
    pub name: String,
    /// Its value.
    pub value: Json,
}

/// A revealed message as mathematical values.
#[verifier::ext_equal]
pub struct RevealedView {
    pub index: usize,
    pub name: Seq<char>,
    pub value: JsonView,
}

impl View for RevealedMessage {
    type V = RevealedView;

    open spec fn view(&self) -> RevealedView {
        RevealedView { index: self.index, name: self.name@, value: self.value@ }
    }
}

impl Clone for RevealedMessage {
    fn clone(&self) -> (r: Self)
        ensures
            r@ == self@,
    {
        RevealedMessage {
            index: self.index,
            name: self.name.clone(),
            value: self.value.clone(),
        }
    }
}

fn clone_revealed(v: &Vec<RevealedMessage>) -> (r: Vec<RevealedMessage>)
    ensures
        revealed_views(r@) == revealed_views(v@),
{
    let mut out: Vec<RevealedMessage> = Vec::new();
    for i in 0..v.len()
        invariant
            out@.len() == i,
            forall|j: int| 0 <= j < i ==> (#[trigger] out@[j])@ == v@[j]@,
    {
        out.push(v[i].clone());
    }
    assert(revealed_views(out@) =~= revealed_views(v@));
    out
}

/// The views of revealed messages.
pub open spec fn revealed_views(v: Seq<RevealedMessage>) -> Seq<RevealedView> {
    v.map_values(|m: RevealedMessage| m@)
}

/// The indices of the messages that are revealed where some claims are disclosed: the
/// registered ones, and those of the claims that are named.
pub open spec fn revealed_indices(claims: Seq<Named>, disclose: Seq<Seq<char>>) -> Seq<usize>
    decreases claims.len(),
{
    if claims.len() == 0 {
        seq![0usize, 1usize, 2usize, 3usize]
    } else {
        let before = revealed_indices(claims.drop_last(), disclose);
        if disclose.contains(claims.last().0) {
            before.push((4 + claims.len() - 1) as usize)
        } else {
            before
        }
    }
}

/// The revealed messages of some indices.
pub open spec fn revealed_at(messages: Seq<Named>, indices: Seq<usize>) -> Seq<RevealedView> {
    indices.map_values(
        |i: usize| RevealedView {
            index: i,
            name: messages[i as int].0,
            value: messages[i as int].1,
        },
    )
}

/// A presentation as mathematical values.
#[verifier::ext_equal]
pub struct PresentationView {
    pub total_messages: usize,
    pub revealed: Seq<RevealedView>,
    pub proof: Seq<u8>,
    pub nonce: Seq<u8>,
}

/// A BBS+ zero-knowledge presentation: reveals some claims, proves the rest in zero
/// knowledge, and is unlinkable across uses.
#[derive(Debug)]
pub struct BbsPresentation {
    total_messages: usize,
    revealed: Vec<RevealedMessage>,
    proof: Vec<u8>,
    nonce: Vec<u8>,
}

impl View for BbsPresentation {
    type V = PresentationView;

    closed spec fn view(&self) -> PresentationView {
        PresentationView {
            total_messages: self.total_messages,
            revealed: revealed_views(self.revealed@),
            proof: self.proof@,
            nonce: self.nonce@,
        }
    }
}

impl Clone for BbsPresentation {
    fn clone(&self) -> (r: Self)
        ensures
            r@ == self@,
    {
        proof {
            use_type_invariant(self);
        }
        BbsPresentation {
            total_messages: self.total_messages,
            revealed: clone_revealed(&self.revealed),
            proof: encoding::bytes_clone(self.proof.as_slice()),
            nonce: encoding::bytes_clone(self.nonce.as_slice()),
        }
    }
}

/// Whether a presentation has messages, not too many, and reveals none beyond them and none
/// twice.
pub open spec fn presentable(p: PresentationView) -> bool {
    &&& 1 <= p.total_messages <= proofs::MAX_MESSAGES
    &&& forall|i: int|
        0 <= i < p.revealed.len() ==> (#[trigger] p.revealed[i]).index < p.total_messages
    &&& forall|i: int, j: int|
        0 <= i < j < p.revealed.len() ==> (#[trigger] p.revealed[i]).index != (
        #[trigger] p.revealed[j]).index
}

/// The presentation that a credential gives for a choice of claims, a nonce and a seed.
pub open spec fn derived(
    c: BbsCredentialView,
    disclose: Seq<Seq<char>>,
    nonce: Seq<u8>,
    seed: Seq<u8>,
) -> Result<PresentationView, ErrorView> {
    let messages = credential_messages(c);
    let digests = digests_of(messages);
    let indices = revealed_indices(c.claims, disclose);
    match proofs::bbs_commitment(param_label(), c.signature, digests, indices, seed) {
        Err(e) => Err(bbs_failure(e)),
        Ok(t) => match proofs::bbs_proof(
            param_label(),
            c.signature,
            digests,
            indices,
            seed,
            challenge_of(t, nonce),
        ) {
            Err(e) => Err(bbs_failure(e)),
            Ok(p) => Ok(
                PresentationView {
                    total_messages: messages.len() as usize,
                    revealed: revealed_at(messages, indices),
                    proof: p,
                    nonce,
                },
            ),
        },
    }
}

/// The views of a sequence of borrowed texts.
pub open spec fn str_views(v: Seq<&str>) -> Seq<Seq<char>> {
    v.map_values(|s: &str| s@)
}

fn is_among(name: &str, v: &[&str]) -> (r: bool)
    ensures
        r == str_views(v@).contains(name@),
{
    for i in 0..v.len()
        invariant
            forall|j: int| 0 <= j < i ==> str_views(v@)[j] != name@,
    {
        assert(str_views(v@)[i as int] == v@[i as int]@);
        if text::str_eq(v[i], name) {
            return true;
        }
    }
    false
}

proof fn lemma_indices(claims: Seq<Named>, disclose: Seq<Seq<char>>)
    requires
        claims.len() + 4 <= usize::MAX,
    ensures
        forall|i: int|
            0 <= i < revealed_indices(claims, disclose).len() ==> (#[trigger] revealed_indices(
                claims,
                disclose,
            )[i]) < 4 + claims.len(),
        revealed_indices(claims, disclose).len() >= 4,
        revealed_indices(claims, disclose).take(4) == seq![0usize, 1usize, 2usize, 3usize],
        forall|i: int|
            4 <= i < revealed_indices(claims, disclose).len() ==> {
                let k = #[trigger] revealed_indices(claims, disclose)[i];
                4 <= k && disclose.contains(claims[k - 4].0)
            },
        forall|j: int|
            0 <= j < claims.len() && disclose.contains((#[trigger] claims[j]).0)
                ==> revealed_indices(claims, disclose).contains((4 + j) as usize),
        forall|a: int, b: int|
            0 <= a < b < revealed_indices(claims, disclose).len() ==> (#[trigger] revealed_indices(
                claims,
                disclose,
            )[a]) < (#[trigger] revealed_indices(claims, disclose)[b]),
    decreases claims.len(),
{
    let all = revealed_indices(claims, disclose);
    if claims.len() == 0 {
        assert(all.take(4) =~= all);
    } else {
        let rest = claims.drop_last();
        lemma_indices(rest, disclose);
        let before = revealed_indices(rest, disclose);
        assert(all.take(4) =~= before.take(4));
        assert forall|i: int| 4 <= i < all.len() implies {
            let k = #[trigger] all[i];
            4 <= k && disclose.contains(claims[k - 4].0)
        } by {
            if i < before.len() {
                assert(all[i] == before[i]);
                let k = before[i];
                assert(4 <= k && disclose.contains(rest[k - 4].0));
                assert(rest[k - 4] == claims[k - 4]);
            }
        }
        assert forall|j: int| 0 <= j < claims.len() && disclose.contains(
            (#[trigger] claims[j]).0,
        ) implies all.contains((4 + j) as usize) by {
            if j < rest.len() {
                assert(rest[j] == claims[j]);
                let i = choose|i: int| 0 <= i < before.len() && before[i] == (4 + j) as usize;
                assert(all[i] == (4 + j) as usize);
            } else {
                assert(all[before.len() as int] == (4 + j) as usize);
            }
        }
        assert forall|a: int, b: int| 0 <= a < b < all.len() implies (#[trigger] all[a]) < (
        #[trigger] all[b]) by {
            assert(all[a] == before[a]);
            if b < before.len() {
                assert(all[b] == before[b]);
            } else {
                assert(before[a] < 4 + rest.len());
            }
        }
    }
}

impl BbsCredential {
    /// Issue a BBS+ credential over `claims`, each of them individually disclosable.
    ///
    /// # Errors
    /// `CryptoError` on a signing failure.
    pub fn issue(
        issuer: &BbsIssuer,
        subject_did: &str,
        claims: &JsonMap,
        valid_for_secs: u64,
    ) -> (r: Result<Self, AgentCredsError>)
        requires
            claims.pairs().len() + 4 <= proofs::MAX_MESSAGES,
        ensures
            r is Ok ==> exists|now: int|
                r->Ok_0@.expires_at == #[trigger] time::second_of(
                    time::later_by(now, valid_for_secs as int),
                ),
            r is Ok ==> {
                let c = r->Ok_0@;
                &&& c.issuer_id == issuer.key().did
                &&& c.subject == subject_did@
                &&& c.claims == claims.pairs()
                &&& proofs::bbs_signed(
                    param_label(),
                    issuer.key().bytes,
                    digests_of(credential_messages(c)),
                    c.signature,
                )
            },
            r is Err ==> r->Err_0@ is CryptoError,
    {
        let now = Timestamp::now();
        Self::issue_at(issuer, subject_did, claims, valid_for_secs, now)
    }

    /// [`issue`](Self::issue), as of `now`.
    ///
    /// # Errors
    /// As [`issue`](Self::issue).
    pub fn issue_at(
        issuer: &BbsIssuer,
        subject_did: &str,
        claims: &JsonMap,
        valid_for_secs: u64,
        now: Timestamp,
    ) -> (r: Result<Self, AgentCredsError>)
        requires
            claims.pairs().len() + 4 <= proofs::MAX_MESSAGES,
        ensures
            r is Ok ==> {
                let c = r->Ok_0@;
                &&& c.issuer_id == issuer.key().did
                &&& c.subject == subject_did@
                &&& c.expires_at == time::second_of(time::later_by(now@, valid_for_secs as int))
                &&& c.claims == claims.pairs()
                &&& proofs::bbs_signed(
                    param_label(),
                    issuer.key().bytes,
                    digests_of(credential_messages(c)),
                    c.signature,
                )
            },
            r is Err ==> r->Err_0@ is CryptoError,
    {
        proof {
            use_type_invariant(issuer);
        }
        let expires_at: i64 = now.plus_secs(valid_for_secs).timestamp();
        let listed = claims.entries();
        let mut own: Vec<(String, Json)> = Vec::new();
        for i in 0..listed.len()
            invariant
                own@.len() == i,
                forall|j: int|
                    0 <= j < i ==> (#[trigger] own@[j]).0@ == listed@[j].0@ && own@[j].1@
                        == listed@[j].1@,
        {
            own.push((listed[i].0.clone(), listed[i].1.clone()));
        }
        assert(json::pair_views(own@) =~= claims.pairs());
        let messages = build_messages(issuer.did.as_str(), subject_did, expires_at, &own);
        let answer = proofs::sign(
            "agentcreds-bbs-params-v1".as_bytes(),
            issuer.secret.as_slice(),
            &messages,
        );
        Self::with_answer(issuer.did.as_str(), subject_did, expires_at, own, answer)
    }

    /// What signing gave, as a credential: one with the signature, or the failure.
    ///
    /// # Errors
    /// `CryptoError` with the reason why there is no signature.
    pub fn with_answer(
        issuer_id: &str,
        subject_did: &str,
        expires_at: i64,
        claims: Vec<(String, Json)>,
        answer: Result<Vec<u8>, String>,
    ) -> (r: Result<Self, AgentCredsError>)
        ensures
            match answer {
                Ok(s) => r is Ok && r->Ok_0@ == (BbsCredentialView {
                    issuer_id: issuer_id@,
                    subject: subject_did@,
                    expires_at,
                    claims: json::pair_views(claims@),
                    signature: s@,
                }),
                Err(e) => r is Err && r->Err_0@ == bbs_failure(e@),
            },
    {
        match answer {
            Ok(signature) => Ok(
                BbsCredential {
                    issuer_id: issuer_id.to_owned(),
                    subject: subject_did.to_owned(),
                    expires_at,
                    claims,
                    signature,
                },
            ),
            Err(e) => Err(bbs_error(e.as_str())),
        }
    }

    /// The names of the claims this credential can disclose.
    pub fn disclosable_claims(&self) -> (r: Vec<String>)
        ensures
            text::views(r@) == self@.claims.map_values(|c: Named| c.0),
    {
        let mut out: Vec<String> = Vec::new();
        for i in 0..self.claims.len()
            invariant
                out@.len() == i,
                forall|j: int| 0 <= j < i ==> (#[trigger] out@[j])@ == self.claims@[j].0@,
        {
            out.push(self.claims[i].0.clone());
        }
        assert(text::views(out@) =~= self@.claims.map_values(|c: Named| c.0));
        out
    }

    /// Holder side: derive a zero-knowledge proof revealing only `disclose`; the registered
    /// messages are always revealed. `nonce` binds the proof to a verifier's challenge. Each
    /// proof draws fresh randomness.
    ///
    /// # Errors
    /// `CryptoError` on a proof failure.
    pub fn derive_proof(&self, disclose: &[&str], nonce: &[u8]) -> (r: Result<
        BbsPresentation,
        AgentCredsError,
    >)
        requires
            self@.claims.len() + 4 <= proofs::MAX_MESSAGES,
        ensures
            exists|seed: Seq<u8>|
                presentation_result(r) == #[trigger] derived(
                    self@,
                    str_views(disclose@),
                    nonce@,
                    seed,
                ),
            provable(self@, r),
    {
        let drawn = crypto::random_bytes(32);
        let mut seed: [u8; 32] = [0u8;32];
        for i in 0..32
            invariant
                drawn@.len() == 32,
        {
            seed.set(i, drawn[i]);
        }
        self.derive_proof_from(disclose, nonce, seed)
    }

    /// [`derive_proof`](Self::derive_proof), drawing its randomness from a seed. A seed is
    /// used once: two proofs from the same seed can be linked.
    ///
    /// # Errors
    /// As [`derive_proof`](Self::derive_proof).
    pub fn derive_proof_from(&self, disclose: &[&str], nonce: &[u8], seed: [u8; 32]) -> (r: Result<
        BbsPresentation,
        AgentCredsError,
    >)
        requires
            self@.claims.len() + 4 <= proofs::MAX_MESSAGES,
        ensures
            presentation_result(r) == derived(self@, str_views(disclose@), nonce@, seed@),
            provable(self@, r),
    {
        let ghost c = self@;
        let ghost named = str_views(disclose@);
        let ghost messages = credential_messages(c);
        let digests = build_messages(
            self.issuer_id.as_str(),
            self.subject.as_str(),
            self.expires_at,
            &self.claims,
        );
        let indices = self.indices(disclose);
        proof {
            lemma_indices(c.claims, named);
        }
        let label = "agentcreds-bbs-params-v1".as_bytes();
        let transcript = match proofs::commit(
            label,
            self.signature.as_slice(),
            &digests,
            &indices,
            seed,
        ) {
            Ok(t) => t,
            Err(e) => {
                return Err(bbs_error(e.as_str()));
            },
        };
        let challenge = challenge_from(transcript.as_slice(), nonce);
        let proof_bytes = match proofs::prove(
            label,
            self.signature.as_slice(),
            &digests,
            &indices,
            seed,
            challenge.as_slice(),
        ) {
            Ok(p) => p,
            Err(e) => {
                return Err(bbs_error(e.as_str()));
            },
        };
        let revealed = self.revealed_messages(&indices);
        assert(revealed_views(revealed@) == revealed_at(messages, indices@));
        let r = BbsPresentation {
            total_messages: digests.len(),
            revealed,
            proof: proof_bytes,
            nonce: encoding::bytes_clone(nonce),
        };
        proof {
            assert forall|key: Seq<u8>| #[trigger]
                proofs::bbs_signed(
                    param_label(),
                    key,
                    digests_of(messages),
                    c.signature,
                ) implies accepted(r@, key) by {
                let open = proofs::shown(digests_of(messages), indices@);
                assert(revealed_digests(r@.revealed) =~= open) by {
                    assert forall|i: int| 0 <= i < indices@.len() implies (
                    #[trigger] revealed_digests(r@.revealed)[i]) == open[i] by {
                        let k = indices@[i] as int;
                        assert(r@.revealed[i].name == messages[k].0);
                        assert(digests_of(messages)[k] == message_digest(messages[k]));
                    }
                }
            }
        }
        Ok(r)
    }

    fn indices(&self, disclose: &[&str]) -> (r: Vec<usize>)
        requires
            self@.claims.len() + 4 <= usize::MAX,
        ensures
            r@ == revealed_indices(self@.claims, str_views(disclose@)),
    {
        let ghost all = self@.claims;
        let mut out: Vec<usize> = Vec::new();
        out.push(0);
        out.push(1);
        out.push(2);
        out.push(3);
        assert(out@ =~= revealed_indices(all.take(0), str_views(disclose@)));
        for j in 0..self.claims.len()
            invariant
                all == self@.claims,
                all.len() + 4 <= usize::MAX,
                out@ == revealed_indices(all.take(j as int), str_views(disclose@)),
        {
            assert(all[j as int] == (self.claims@[j as int].0@, self.claims@[j as int].1@));
            assert(all.take(j + 1).drop_last() =~= all.take(j as int));
            assert(all.take(j + 1).last() == all[j as int]);
            if is_among(self.claims[j].0.as_str(), disclose) {
                out.push(REGISTERED + j);
            }
        }
        assert(all.take(all.len() as int) =~= all);
        out
    }

    /// The messages of some indices.
    fn revealed_messages(&self, indices: &Vec<usize>) -> (r: Vec<RevealedMessage>)
        requires
            forall|i: int|
                0 <= i < indices@.len() ==> (#[trigger] indices@[i]) < 4 + self@.claims.len(),
        ensures
            revealed_views(r@) == revealed_at(credential_messages(self@), indices@),
    {
        let ghost messages = credential_messages(self@);
        let mut out: Vec<RevealedMessage> = Vec::new();
        for n in 0..indices.len()
            invariant
                messages == credential_messages(self@),
                forall|i: int|
                    0 <= i < indices@.len() ==> (#[trigger] indices@[i]) < 4 + self@.claims.len(),
                out@.len() == n,
                forall|j: int|
                    0 <= j < n ==> (#[trigger] out@[j])@ == (RevealedView {
                        index: indices@[j],
                        name: messages[indices@[j] as int].0,
                        value: messages[indices@[j] as int].1,
                    }),
        {
            let index: usize = indices[n];
            let (name, value) = self.message(index);
            out.push(RevealedMessage { index, name, value });
        }
        assert(revealed_views(out@) =~= revealed_at(messages, indices@));
        out
    }

    /// The message of an index.
    fn message(&self, index: usize) -> (r: (String, Json))
        requires
            index < 4 + self@.claims.len(),
        ensures
            (r.0@, r.1@) == credential_messages(self@)[index as int],
    {
        if index == 0 {
            ("iss".to_owned(), Json::Text(self.issuer_id.clone()))
        } else if index == 1 {
            ("sub".to_owned(), Json::Text(self.subject.clone()))
        } else if index == 2 {
            ("exp".to_owned(), number(self.expires_at))
        } else if index == 3 {
            ("vct".to_owned(), Json::Text(VCT.to_owned()))
        } else {
            let ghost c = json::pair_views(self.claims@);
            let k: usize = index - REGISTERED;
            assert(c[k as int] == (self.claims@[k as int].0@, self.claims@[k as int].1@));
            (self.claims[k].0.clone(), self.claims[k].1.clone())
        }
    }
}

/// A presentation result by view.
pub open spec fn presentation_result(r: Result<BbsPresentation, AgentCredsError>) -> Result<
    PresentationView,
    ErrorView,
> {
    match r {
        Ok(p) => Ok(p@),
        Err(e) => Err(e@),
    }
}

/// The digests of revealed messages, with their indices.
pub open spec fn revealed_digests(v: Seq<RevealedView>) -> Seq<(usize, Seq<u8>)> {
    v.map_values(|m: RevealedView| (m.index, message_digest((m.name, m.value))))
}

/// Whether the proof of a presentation verifies under a public key.
pub open spec fn accepted(p: PresentationView, key: Seq<u8>) -> bool {
    match proofs::bbs_transcript(
        param_label(),
        p.proof,
        p.total_messages,
        revealed_digests(p.revealed),
    ) {
        Err(_) => false,
        Ok(t) => proofs::bbs_proof_verifies(
            param_label(),
            p.proof,
            p.total_messages,
            revealed_digests(p.revealed),
            challenge_of(t, p.nonce),
            key,
        ) is Ok,
    }
}

/// Whether a presentation derived from a credential is accepted under every key that the
/// credential's signature verifies under.
pub open spec fn provable(c: BbsCredentialView, r: Result<BbsPresentation, AgentCredsError>) -> bool {
    r is Ok ==> presentable(r->Ok_0@) && forall|key: Seq<u8>| #[trigger]
        proofs::bbs_signed(
            param_label(),
            key,
            digests_of(credential_messages(c)),
            c.signature,
        ) ==> accepted(r->Ok_0@, key)
}

// -- Presentations -----------------------------------------------------------------------------------

/// The result of verifying a BBS+ presentation.
#[derive(Debug)]
pub struct BbsDisclosed {
    /// Issuer identifier (revealed `iss`).
    pub issuer: String,
    /// Subject DID (revealed `sub`).
    pub subject: String,
    /// Expiry (revealed `exp`).
    pub expires_at: Timestamp,
    /// The non-registered claims the holder disclosed.
    pub disclosed: JsonMap,
}

/// What was disclosed, as mathematical values.
#[verifier::ext_equal]
pub struct DisclosedView {
    pub issuer: Seq<char>,
    pub subject: Seq<char>,
    pub expires_at: int,
    pub disclosed: Seq<Named>,
}

impl View for BbsDisclosed {
    type V = DisclosedView;

    open spec fn view(&self) -> DisclosedView {
        DisclosedView {
            issuer: self.issuer@,
            subject: self.subject@,
            expires_at: self.expires_at@,
            disclosed: self.disclosed.pairs(),
        }
    }
}

impl Clone for BbsDisclosed {
    fn clone(&self) -> (r: Self)
        ensures
            r@ == self@,
    {
        BbsDisclosed {
            issuer: self.issuer.clone(),
            subject: self.subject.clone(),
            expires_at: self.expires_at,
            disclosed: self.disclosed.clone(),
        }
    }
}

/// The text of a JSON value, empty where it is none.
pub open spec fn text_value(v: JsonView) -> Seq<char> {
    match v {
        JsonView::Text(s) => s,
        _ => Seq::<char>::empty(),
    }
}

/// The number of a JSON value, zero where it is no 64-bit integer.
pub open spec fn number_value(v: JsonView) -> i64 {
    match v {
        JsonView::Whole(n) => if n <= i64::MAX {
            n as i64
        } else {
            0
        },
        JsonView::Negative(n) => n,
        _ => 0,
    }
}

/// What revealed messages say: the issuer, the subject and the expiry.
#[verifier::ext_equal]
pub struct Registered {
    pub issuer: Seq<char>,
    pub subject: Seq<char>,
    pub exp: i64,
}

/// The registered values among revealed messages.
pub open spec fn registered(v: Seq<RevealedView>) -> Registered
    decreases v.len(),
{
    if v.len() == 0 {
        Registered { issuer: Seq::<char>::empty(), subject: Seq::<char>::empty(), exp: 0 }
    } else {
        let before = registered(v.drop_last());
        let m = v.last();
        if m.index == 0 {
            Registered { issuer: text_value(m.value), ..before }
        } else if m.index == 1 {
            Registered { subject: text_value(m.value), ..before }
        } else if m.index == 2 {
            Registered { exp: number_value(m.value), ..before }
        } else {
            before
        }
    }
}

/// The value that revealed messages give a claim.
pub open spec fn claim_value(v: Seq<RevealedView>, name: Seq<char>) -> Option<JsonView>
    decreases v.len(),
{
    if v.len() == 0 {
        None
    } else if v.last().index > 3 && v.last().name == name {
        Some(v.last().value)
    } else {
        claim_value(v.drop_last(), name)
    }
}

/// Whether a list of claims is the one that revealed messages give: in the order of the
/// names, each with its value.
pub open spec fn collects(v: Seq<RevealedView>, claims: Seq<Named>) -> bool {
    &&& json::names_ascending(claims)
    &&& forall|n: Seq<char>| #[trigger] json::value_in(claims, n) == claim_value(v, n)
}

/// Whether a result is what verifying a presentation gives:
/// the nonce must be the expected one, the key must decode, the proof must verify, a bound key
/// must be attested, the expiry must be a time that has not passed, and a bound key's DID must
/// be the revealed issuer.
pub open spec fn present_outcome(
    p: PresentationView,
    k: BbsKeyView,
    expected_nonce: Seq<u8>,
    now: int,
    r: Result<DisclosedView, ErrorView>,
) -> bool {
    let open = revealed_digests(p.revealed);
    let said = registered(p.revealed);
    if p.nonce != expected_nonce {
        r == Err::<DisclosedView, ErrorView>(
            ErrorView::ProofOfPossessionFailed {
                reason: "bbs+ presentation nonce does not match"@,
            },
        )
    } else if proofs::bbs_key_decodes(k.bytes) is Err {
        r == Err::<DisclosedView, ErrorView>(
            bbs_failure(proofs::bbs_key_decodes(k.bytes)->Err_0),
        )
    } else {
        match proofs::bbs_transcript(param_label(), p.proof, p.total_messages, open) {
            Err(e) => r == Err::<DisclosedView, ErrorView>(bbs_failure(e)),
            Ok(t) => match proofs::bbs_proof_verifies(
                param_label(),
                p.proof,
                p.total_messages,
                open,
                challenge_of(t, p.nonce),
                k.bytes,
            ) {
                Err(e) => r == Err::<DisclosedView, ErrorView>(bbs_failure(e)),
                Ok(_) => if bound(k) && binding_verifies(k) is Err {
                    r == Err::<DisclosedView, ErrorView>(binding_verifies(k)->Err_0)
                } else if !(time::MIN_SECS <= said.exp <= time::MAX_SECS) {
                    r == Err::<DisclosedView, ErrorView>(bbs_failure("\"invalid exp\""@))
                } else if now > said.exp * time::NANOS_PER_SEC {
                    r == Err::<DisclosedView, ErrorView>(
                        ErrorView::CredentialExpired {
                            expired_at: time::rfc3339_text(said.exp * time::NANOS_PER_SEC),
                        },
                    )
                } else if bound(k) && said.issuer != k.did {
                    r == Err::<DisclosedView, ErrorView>(
                        ErrorView::IssuerMismatch { expected: k.did, got: said.issuer },
                    )
                } else {
                    &&& r is Ok
                    &&& r->Ok_0.issuer == said.issuer
                    &&& r->Ok_0.subject == said.subject
                    &&& r->Ok_0.expires_at == said.exp * time::NANOS_PER_SEC
                    &&& collects(p.revealed, r->Ok_0.disclosed)
                },
            },
        }
    }
}

/// A result of disclosed claims by view.
pub open spec fn disclosed_result(r: Result<BbsDisclosed, AgentCredsError>) -> Result<
    DisclosedView,
    ErrorView,
> {
    match r {
        Ok(d) => Ok(d@),
        Err(e) => Err(e@),
    }
}

impl BbsPresentation {
    #[verifier::type_invariant]
    spec fn sound(&self) -> bool {
        presentable(self@)
    }

    /// Takes in a presentation: `None` where it has no messages, too many, or reveals one
    /// beyond them or one twice.
    pub fn from_parts(
        total_messages: usize,
        revealed: Vec<RevealedMessage>,
        proof: Vec<u8>,
        nonce: Vec<u8>,
    ) -> (r: Option<Self>)
        ensures
            r is Some == presentable(
                (PresentationView {
                    total_messages,
                    revealed: revealed_views(revealed@),
                    proof: proof@,
                    nonce: nonce@,
                }),
            ),
            r is Some ==> r->0@ == (PresentationView {
                total_messages,
                revealed: revealed_views(revealed@),
                proof: proof@,
                nonce: nonce@,
            }),
    {
        let ghost all = revealed_views(revealed@);
        if total_messages < 1 || total_messages > proofs::MAX_MESSAGES {
            return None;
        }
        for i in 0..revealed.len()
            invariant
                all == revealed_views(revealed@),
                forall|j: int| 0 <= j < i ==> (#[trigger] all[j]).index < total_messages,
                forall|j: int, k: int|
                    0 <= j < k < i ==> (#[trigger] all[j]).index != (#[trigger] all[k]).index,
        {
            assert(all[i as int] == revealed@[i as int]@);
            if revealed[i].index >= total_messages {
                assert(all[i as int].index >= total_messages);
                return None;
            }
            for j in 0..i
                invariant
                    i < revealed@.len(),
                    all == revealed_views(revealed@),
                    forall|k: int| 0 <= k < j ==> (#[trigger] all[k]).index != all[i as int].index,
            {
                assert(all[i as int] == revealed@[i as int]@);
                assert(all[j as int] == revealed@[j as int]@);
                if revealed[j].index == revealed[i].index {
                    assert(all[j as int].index == all[i as int].index);
                    return None;
                }
            }
        }
        Some(BbsPresentation { total_messages, revealed, proof, nonce })
    }

    /// How many messages the credential has.
    pub fn total_messages(&self) -> (r: usize)
        ensures
            r == self@.total_messages,
    {
        self.total_messages
    }

    /// The revealed messages.
    pub fn revealed(&self) -> (r: &Vec<RevealedMessage>)
        ensures
            revealed_views(r@) == self@.revealed,
    {
        &self.revealed
    }

    /// The bytes of the proof.
    pub fn proof_bytes(&self) -> (r: &[u8])
        ensures
            r@ == self@.proof,
    {
        self.proof.as_slice()
    }

    /// The nonce that the proof is bound to.
    pub fn nonce(&self) -> (r: &[u8])
        ensures
            r@ == self@.nonce,
    {
        self.nonce.as_slice()
    }

    /// Verifier side: verify against the issuer's public key and an expected nonce, returning
    /// the disclosed claims.
    ///
    /// # Errors
    /// `ProofOfPossessionFailed` on a nonce mismatch; `CryptoError` if the key or the proof
    /// does not decode or the proof does not verify; `InvalidDidSignature` or
    /// `InvalidKeyMaterial` where the key's binding fails; `CredentialExpired` if past `exp`;
    /// `IssuerMismatch` where a bound key's DID is not the revealed issuer.
    pub fn verify(&self, issuer_pk: &BbsPublicKey, expected_nonce: &[u8]) -> (r: Result<
        BbsDisclosed,
        AgentCredsError,
    >)
        ensures
            exists|now: int| #[trigger]
                present_outcome(self@, issuer_pk@, expected_nonce@, now, disclosed_result(r)),
    {
        let now = Timestamp::now();
        self.verify_at(issuer_pk, expected_nonce, now)
    }

    /// [`verify`](Self::verify), as of `now`.
    ///
    /// # Errors
    /// As [`verify`](Self::verify).
    pub fn verify_at(&self, issuer_pk: &BbsPublicKey, expected_nonce: &[u8], now: Timestamp) -> (r:
        Result<BbsDisclosed, AgentCredsError>)
        ensures
            present_outcome(self@, issuer_pk@, expected_nonce@, now@, disclosed_result(r)),
    {
        proof {
            use_type_invariant(self);
        }
        if !text::bytes_eq(self.nonce.as_slice(), expected_nonce) {
            return Err(
                AgentCredsError::ProofOfPossessionFailed {
                    reason: "bbs+ presentation nonce does not match".to_owned(),
                },
            );
        }
        match proofs::check_key(issuer_pk.bytes.as_slice()) {
            Ok(_) => {},
            Err(e) => {
                return Err(bbs_error(e.as_str()));
            },
        }
        let open = self.open_digests();
        assert forall|i: int| 0 <= i < open@.len() implies (#[trigger] open@[i]).0
            < self.total_messages by {
            assert(proofs::indexed_views(open@)[i] == revealed_digests(self@.revealed)[i]);
            assert(self@.revealed[i].index < self@.total_messages);
        }
        let label = "agentcreds-bbs-params-v1".as_bytes();
        let transcript = match proofs::transcript(
            label,
            self.proof.as_slice(),
            self.total_messages,
            &open,
        ) {
            Ok(t) => t,
            Err(e) => {
                return Err(bbs_error(e.as_str()));
            },
        };
        let challenge = challenge_from(transcript.as_slice(), self.nonce.as_slice());
        match proofs::verify(
            label,
            self.proof.as_slice(),
            self.total_messages,
            &open,
            challenge.as_slice(),
            issuer_pk.bytes.as_slice(),
        ) {
            Ok(_) => {},
            Err(e) => {
                return Err(bbs_error(e.as_str()));
            },
        }
        let is_bound = issuer_pk.is_bound();
        if is_bound {
            match issuer_pk.verify_binding() {
                Ok(_) => {},
                Err(e) => {
                    return Err(e);
                },
            }
        }
        let (issuer, subject, exp) = self.read_registered();
        let expires_at = match Timestamp::from_unix(exp, 0) {
            Some(t) => t,
            None => {
                return Err(bbs_error("\"invalid exp\""));
            },
        };
        if now.is_after(&expires_at) {
            return Err(
                AgentCredsError::CredentialExpired { expired_at: expires_at.to_rfc3339() },
            );
        }
        if is_bound && !text::str_eq(issuer.as_str(), issuer_pk.did.as_str()) {
            return Err(
                AgentCredsError::IssuerMismatch { expected: issuer_pk.did.clone(), got: issuer },
            );
        }
        Ok(BbsDisclosed { issuer, subject, expires_at, disclosed: self.collect_claims() })
    }

    /// The digests of the revealed messages.
    fn open_digests(&self) -> (r: Vec<(usize, Vec<u8>)>)
        ensures
            proofs::indexed_views(r@) == revealed_digests(self@.revealed),
            r@.len() == self@.revealed.len(),
    {
        let mut out: Vec<(usize, Vec<u8>)> = Vec::new();
        for i in 0..self.revealed.len()
            invariant
                out@.len() == i,
                forall|j: int|
                    0 <= j < i ==> (#[trigger] out@[j]).0 == self.revealed@[j].index && out@[j].1@
                        == message_digest((self.revealed@[j].name@, self.revealed@[j].value@)),
        {
            let m = &self.revealed[i];
            out.push((m.index, encode_message(m.name.as_str(), &m.value)));
        }
        assert(proofs::indexed_views(out@) =~= revealed_digests(self@.revealed));
        out
    }

    /// The issuer, the subject and the expiry that the revealed messages say.
    fn read_registered(&self) -> (r: (String, String, i64))
        ensures
            (Registered { issuer: r.0@, subject: r.1@, exp: r.2 }) == registered(self@.revealed),
    {
        let ghost all = self@.revealed;
        let mut issuer = String::new();
        let mut subject = String::new();
        let mut exp: i64 = 0;
        assert(issuer@ =~= Seq::<char>::empty());
        for i in 0..self.revealed.len()
            invariant
                all == revealed_views(self.revealed@),
                (Registered { issuer: issuer@, subject: subject@, exp }) == registered(
                    all.take(i as int),
                ),
        {
            let m = &self.revealed[i];
            assert(all.take(i + 1).drop_last() =~= all.take(i as int));
            assert(all.take(i + 1).last() == m@);
            if m.index == 0 {
                issuer = match &m.value {
                    Json::Text(s) => s.clone(),
                    _ => String::new(),
                };
                assert(issuer@ =~= text_value(m@.value));
            } else if m.index == 1 {
                subject = match &m.value {
                    Json::Text(s) => s.clone(),
                    _ => String::new(),
                };
                assert(subject@ =~= text_value(m@.value));
            } else if m.index == 2 {
                exp = match &m.value {
                    Json::Whole(n) => if *n <= 9223372036854775807 {
                        *n as i64
                    } else {
                        0
                    },
                    Json::Negative(n) => *n,
                    _ => 0,
                };
            }
        }
        assert(all.take(all.len() as int) =~= all);
        (issuer, subject, exp)
    }

    /// The disclosed claims.
    fn collect_claims(&self) -> (r: JsonMap)
        ensures
            collects(self@.revealed, r.pairs()),
    {
        let ghost all = self@.revealed;
        let mut out = JsonMap::new();
        assert(json::names_ascending(out.pairs()));
        for i in 0..self.revealed.len()
            invariant
                all == revealed_views(self.revealed@),
                collects(all.take(i as int), out.pairs()),
        {
            let m = &self.revealed[i];
            assert(all.take(i + 1).drop_last() =~= all.take(i as int));
            assert(all.take(i + 1).last() == m@);
            let ghost before = out.pairs();
            if m.index > 3 {
                out.insert(m.name.clone(), m.value.clone());
            }
            assert forall|n: Seq<char>| #[trigger]
                json::value_in(out.pairs(), n) == claim_value(all.take(i + 1), n) by {
                assert(json::value_in(before, n) == claim_value(all.take(i as int), n));
            }
        }
        assert(all.take(all.len() as int) =~= all);
        out
    }
}

// -- Laws --------------------------------------------------------------------------------------------

proof fn lemma_registered(v: Seq<RevealedView>, messages: Seq<Named>, indices: Seq<usize>)
    requires
        v == revealed_at(messages, indices),
        indices.len() >= 4,
        indices.take(4) == seq![0usize, 1usize, 2usize, 3usize],
        forall|i: int| 4 <= i < indices.len() ==> (#[trigger] indices[i]) > 3,
    ensures
        registered(v) == (Registered {
            issuer: text_value(messages[0].1),
            subject: text_value(messages[1].1),
            exp: number_value(messages[2].1),
        }),
    decreases v.len(),
{
    assert(v.len() == indices.len());
    if indices.len() > 4 {
        let rest = indices.drop_last();
        assert(rest.take(4) =~= indices.take(4));
        assert(v.drop_last() =~= revealed_at(messages, rest));
        assert forall|i: int| 4 <= i < rest.len() implies (#[trigger] rest[i]) > 3 by {
            assert(rest[i] == indices[i]);
        }
        lemma_registered(v.drop_last(), messages, rest);
        assert(v.last().index == indices.last());
        assert(indices[indices.len() - 1] > 3);
    } else {
        assert(indices =~= indices.take(4));
        assert(v[0].index == 0 && v[1].index == 1 && v[2].index == 2 && v[3].index == 3);
        let a = v.drop_last();
        let b = a.drop_last();
        let c = b.drop_last();
        assert(c.drop_last().len() == 0);
        reveal_with_fuel(registered, 5);
        assert(a.last() == v[2] && b.last() == v[1] && c.last() == v[0]);
    }
}

/// What is issued, derived and presented for the same nonce before its expiry verifies under
/// the issuer's public key, and discloses the issuer, the subject, the expiry and the chosen
/// claims.
pub proof fn a_derived_presentation_verifies(
    c: BbsCredentialView,
    k: BbsKeyView,
    p: PresentationView,
    disclose: Seq<Seq<char>>,
    nonce: Seq<u8>,
    seed: Seq<u8>,
    now: int,
    r: Result<DisclosedView, ErrorView>,
)
    requires
        c.claims.len() + 4 <= usize::MAX,
        derived(c, disclose, nonce, seed) == Ok::<PresentationView, ErrorView>(p),
        accepted(p, k.bytes),
        proofs::bbs_key_decodes(k.bytes) is Ok,
        bound(k) ==> binding_verifies(k) is Ok && c.issuer_id == k.did,
        time::MIN_SECS <= c.expires_at <= time::MAX_SECS,
        now <= c.expires_at * time::NANOS_PER_SEC,
        present_outcome(p, k, nonce, now, r),
    ensures
        r is Ok,
        r->Ok_0.issuer == c.issuer_id,
        r->Ok_0.subject == c.subject,
        r->Ok_0.expires_at == c.expires_at * time::NANOS_PER_SEC,
        collects(p.revealed, r->Ok_0.disclosed),
{
    lemma_indices(c.claims, disclose);
    let messages = credential_messages(c);
    let indices = revealed_indices(c.claims, disclose);
    lemma_registered(p.revealed, messages, indices);
    assert(messages[0] == ("iss"@, JsonView::Text(c.issuer_id)));
    assert(messages[1] == ("sub"@, JsonView::Text(c.subject)));
    assert(messages[2] == ("exp"@, number_view(c.expires_at)));
}

/// The digests that a proof is checked over, by index.
pub open spec fn covered(v: Seq<RevealedView>) -> Map<usize, Seq<u8>>
    decreases v.len(),
{
    if v.len() == 0 {
        Map::empty()
    } else {
        covered(v.drop_last()).insert(
            v.last().index,
            message_digest((v.last().name, v.last().value)),
        )
    }
}

/// Whether the digests that a proof is checked over are those of some messages.
pub open spec fn agrees_with(p: PresentationView, messages: Seq<Named>) -> bool {
    forall|i: usize| #[trigger]
        covered(p.revealed).contains_key(i) ==> i < messages.len() && covered(p.revealed)[i]
            == message_digest(messages[i as int])
}

proof fn lemma_covered(v: Seq<RevealedView>, i: int)
    requires
        0 <= i < v.len(),
        forall|a: int, b: int|
            0 <= a < b < v.len() ==> (#[trigger] v[a]).index != (#[trigger] v[b]).index,
    ensures
        covered(v).contains_key(v[i].index),
        covered(v)[v[i].index] == message_digest((v[i].name, v[i].value)),
    decreases v.len(),
{
    if i < v.len() - 1 {
        let rest = v.drop_last();
        assert forall|a: int, b: int| 0 <= a < b < rest.len() implies (#[trigger] rest[a]).index
            != (#[trigger] rest[b]).index by {
            assert(rest[a] == v[a] && rest[b] == v[b]);
        }
        lemma_covered(rest, i);
        assert(v[i].index != v[v.len() - 1].index);
    }
}

/// A proof is checked over every message that a presentation reveals: no revealed claim stands
/// outside of it.
pub proof fn every_revealed_message_is_covered(p: PresentationView, i: int)
    requires
        presentable(p),
        0 <= i < p.revealed.len(),
    ensures
        covered(p.revealed).contains_key(p.revealed[i].index),
        covered(p.revealed)[p.revealed[i].index] == message_digest(
            (p.revealed[i].name, p.revealed[i].value),
        ),
{
    lemma_covered(p.revealed, i);
}

proof fn lemma_claim_value(v: Seq<RevealedView>, name: Seq<char>) -> (i: int)
    requires
        claim_value(v, name) is Some,
    ensures
        0 <= i < v.len(),
        v[i].index > 3,
        v[i].name == name,
        v[i].value == claim_value(v, name)->0,
    decreases v.len(),
{
    if v.last().index > 3 && v.last().name == name {
        v.len() - 1
    } else {
        lemma_claim_value(v.drop_last(), name)
    }
}

/// Every disclosed claim is a signed one: where the proof's digests are those of the messages
/// that the issuer signed, a claim that verification discloses has the digest of a signed
/// message other than the first four, and so its text, unless SHA-256 gives two texts one
/// digest.
pub proof fn disclosed_claims_are_signed_ones(
    p: PresentationView,
    messages: Seq<Named>,
    disclosed: Seq<Named>,
    name: Seq<char>,
)
    requires
        presentable(p),
        collects(p.revealed, disclosed),
        agrees_with(p, messages),
        json::value_in(disclosed, name) is Some,
    ensures
        exists|k: int|
            {
                let claim = (name, json::value_in(disclosed, name)->0);
                &&& 4 <= k < messages.len()
                &&& message_digest(#[trigger] messages[k]) == message_digest(claim)
                &&& message_text(messages[k]) == message_text(claim) || (encoding::utf8(
                    message_text(messages[k]),
                ) != encoding::utf8(message_text(claim)) && crypto::sha256_digest(
                    encoding::utf8(message_text(messages[k])),
                ) == crypto::sha256_digest(encoding::utf8(message_text(claim))))
            },
{
    assert(json::value_in(disclosed, name) == claim_value(p.revealed, name));
    let i = lemma_claim_value(p.revealed, name);
    every_revealed_message_is_covered(p, i);
    let k = p.revealed[i].index as int;
    let claim = (name, json::value_in(disclosed, name)->0);
    assert(message_digest(messages[k]) == message_digest(claim));
    if encoding::utf8(message_text(messages[k])) == encoding::utf8(message_text(claim)) {
        encoding::lemma_utf8_injective(message_text(messages[k]), message_text(claim));
    }
}

/// What a derived presentation discloses are claims of its credential, each with its signed
/// value.
pub proof fn a_derived_presentation_discloses_its_credential(
    c: BbsCredentialView,
    p: PresentationView,
    disclose: Seq<Seq<char>>,
    nonce: Seq<u8>,
    seed: Seq<u8>,
    disclosed: Seq<Named>,
    name: Seq<char>,
)
    requires
        c.claims.len() + 4 <= usize::MAX,
        derived(c, disclose, nonce, seed) == Ok::<PresentationView, ErrorView>(p),
        collects(p.revealed, disclosed),
        json::value_in(disclosed, name) is Some,
    ensures
        c.claims.contains((name, json::value_in(disclosed, name)->0)),
        disclose.contains(name),
{
    lemma_indices(c.claims, disclose);
    assert(json::value_in(disclosed, name) == claim_value(p.revealed, name));
    let i = lemma_claim_value(p.revealed, name);
    only_chosen_claims_are_revealed(c, p, disclose, nonce, seed, i);
    let k = revealed_indices(c.claims, disclose)[i];
    assert(p.revealed[i].index == k);
    assert(credential_messages(c)[k as int] == c.claims[k - 4]);
}

/// Selective disclosure: a derived presentation reveals a claim only where its name is among
/// those to disclose. The rest of the claims do not occur in it.
pub proof fn only_chosen_claims_are_revealed(
    c: BbsCredentialView,
    p: PresentationView,
    disclose: Seq<Seq<char>>,
    nonce: Seq<u8>,
    seed: Seq<u8>,
    i: int,
)
    requires
        c.claims.len() + 4 <= usize::MAX,
        derived(c, disclose, nonce, seed) == Ok::<PresentationView, ErrorView>(p),
        0 <= i < p.revealed.len(),
    ensures
        p.revealed[i].index < 4 || disclose.contains(p.revealed[i].name),
{
    lemma_indices(c.claims, disclose);
    let messages = credential_messages(c);
    let indices = revealed_indices(c.claims, disclose);
    let k = indices[i];
    if i < 4 {
        assert(indices.take(4)[i] == indices[i]);
    } else {
        assert(messages[k as int] == c.claims[k - 4]);
    }
}

// -- What an accepted presentation shows ----------------------------------------------------------------

/// A presentation that is accepted was made for the nonce that was asked for, its proof verifies over
/// what it reveals under the issuer's key for the challenge of that nonce, it has not expired, and where
/// the key is bound to a DID the binding holds and the issuer it names is that DID. What comes out is
/// what it reveals.
pub proof fn an_accepted_presentation_is_fresh_and_proved(
    p: PresentationView,
    k: BbsKeyView,
    expected_nonce: Seq<u8>,
    now: int,
    d: DisclosedView,
)
    requires
        present_outcome(p, k, expected_nonce, now, Ok(d)),
    ensures
        p.nonce == expected_nonce,
        proofs::bbs_key_decodes(k.bytes) is Ok,
        ({
            let open = revealed_digests(p.revealed);
            let t = proofs::bbs_transcript(param_label(), p.proof, p.total_messages, open);
            &&& t is Ok
            &&& proofs::bbs_proof_verifies(
                param_label(),
                p.proof,
                p.total_messages,
                open,
                challenge_of(t->Ok_0, expected_nonce),
                k.bytes,
            ) is Ok
        }),
        now <= d.expires_at,
        k.did != "bbs-issuer"@ && k.attestation.len() > 0 ==> binding_verifies(k) is Ok && d.issuer
            == k.did,
        d.issuer == registered(p.revealed).issuer,
        d.subject == registered(p.revealed).subject,
        d.expires_at == registered(p.revealed).exp * time::NANOS_PER_SEC,
        collects(p.revealed, d.disclosed),
{
}

/// A presentation for another nonce is refused as a failed proof of possession, whatever it holds.
pub proof fn a_presentation_is_for_one_nonce(
    p: PresentationView,
    k: BbsKeyView,
    expected_nonce: Seq<u8>,
    now: int,
    r: Result<DisclosedView, ErrorView>,
)
    requires
        p.nonce != expected_nonce,
        present_outcome(p, k, expected_nonce, now, r),
    ensures
        r is Err,
        r->Err_0 is ProofOfPossessionFailed,
{
}

/// A key is shown to be its anchor's exactly where it names a `did:key` other than the placeholder,
/// carries an attestation, and the key of that DID has signed the binding of the DID and the key.
pub proof fn a_bound_key_is_its_anchors(k: BbsKeyView)
    ensures
        binding_verifies(k) is Ok <==> {
            &&& k.did != "bbs-issuer"@
            &&& k.attestation.len() > 0
            &&& did::did_key_of(k.did) is Ok
            &&& did::key_verifies(
                did::did_key_of(k.did)->Ok_0,
                binding_bytes(k.did, k.bytes),
                k.attestation,
            ) is Ok
        },
        k.did == "bbs-issuer"@ || k.attestation.len() == 0 ==> binding_verifies(k) is Err
            && binding_verifies(k)->Err_0 is InvalidDidSignature,
{
}

/// Binding bytes stand for one DID and one key.
pub proof fn binding_bytes_stand_for_one_key(a: BbsKeyView, b: BbsKeyView)
    requires
        encoding::utf8(a.did).len() <= u64::MAX,
        encoding::utf8(b.did).len() <= u64::MAX,
        binding_bytes(a.did, a.bytes) == binding_bytes(b.did, b.bytes),
    ensures
        a.did == b.did,
        a.bytes == b.bytes,
{
    let d = encoding::utf8("agentcreds-bbs-issuer-binding-v1"@);
    let (f, g) = (encoding::text_field(a.did), encoding::text_field(b.did));
    encoding::lemma_assoc(d, f, a.bytes);
    encoding::lemma_assoc(d, g, b.bytes);
    encoding::lemma_split(d, d, f + a.bytes, g + b.bytes);
    encoding::lemma_text_field_prefix(a.did, b.did, a.bytes, b.bytes);
}

/// A challenge stands for one transcript and one nonce, unless SHA-256 fails on the two: a proof made
/// for one nonce does not answer the challenge of another.
pub proof fn a_challenge_stands_for_one_nonce(
    transcript: Seq<u8>,
    nonce: Seq<u8>,
    other: Seq<u8>,
    later: Seq<u8>,
)
    requires
        transcript.len() <= u64::MAX,
        nonce.len() <= u64::MAX,
        other.len() <= u64::MAX,
        later.len() <= u64::MAX,
        challenge_of(transcript, nonce) == challenge_of(other, later),
    ensures
        (transcript == other && nonce == later) || crypto::breaks_on(
            set![challenge_bytes(transcript, nonce), challenge_bytes(other, later)],
        ),
{
    let (x, y) = (challenge_bytes(transcript, nonce), challenge_bytes(other, later));
    let inputs = set![x, y];
    if !crypto::breaks_on(inputs) {
        assert(inputs.contains(x) && inputs.contains(y));
        let none = Seq::<u8>::empty();
        let d = encoding::field(encoding::utf8("agentcreds-bbs-challenge-v1"@));
        let (f, g) = (encoding::field(transcript), encoding::field(other));
        let (m, n) = (encoding::field(nonce), encoding::field(later));
        encoding::lemma_assoc(d, f, m);
        encoding::lemma_assoc(d, g, n);
        encoding::lemma_split(d, d, f + m, g + n);
        encoding::lemma_field_prefix(transcript, other, m, n);
        assert(m + none =~= m);
        assert(n + none =~= n);
        encoding::lemma_field_prefix(nonce, later, none, none);
    }
}

/// What is signed of a credential says who issued it, about whom, until when and of what kind, and then
/// every claim in order.
pub proof fn signed_messages_say_it_all(
    issuer_id: Seq<char>,
    subject: Seq<char>,
    exp: i64,
    claims: Seq<Named>,
    i: int,
)
    requires
        0 <= i < claims.len(),
    ensures
        ({
            let m = messages_of(issuer_id, subject, exp, claims);
            &&& m.len() == claims.len() + 4
            &&& m[0] == ("iss"@, JsonView::Text(issuer_id))
            &&& m[1] == ("sub"@, JsonView::Text(subject))
            &&& m[2].0 == "exp"@ && number_value(m[2].1) == exp
            &&& m[3] == ("vct"@, JsonView::Text("AgentCredsCapability"@))
            &&& m[i + 4] == claims[i]
        }),
{
}

/// Deriving reveals every claim that was chosen: a claim whose name is among those to disclose is in
/// the presentation, with its value, and so are the first four messages; the nonce is the one asked for.
pub proof fn every_chosen_claim_is_revealed(
    c: BbsCredentialView,
    p: PresentationView,
    disclose: Seq<Seq<char>>,
    nonce: Seq<u8>,
    seed: Seq<u8>,
    i: int,
)
    requires
        c.claims.len() + 4 <= usize::MAX,
        derived(c, disclose, nonce, seed) == Ok::<PresentationView, ErrorView>(p),
        0 <= i < c.claims.len(),
        disclose.contains(c.claims[i].0),
    ensures
        p.nonce == nonce,
        p.total_messages == c.claims.len() + 4,
        exists|j: int|
            0 <= j < p.revealed.len() && (#[trigger] p.revealed[j]).index == i + 4
                && p.revealed[j].name == c.claims[i].0 && p.revealed[j].value == c.claims[i].1,
{
    let indices = revealed_indices(c.claims, disclose);
    lemma_chosen_index(c.claims, disclose, i);
    let j = choose|j: int| 0 <= j < indices.len() && indices[j] == i + 4;
    assert(p.revealed[j].index == indices[j]);
    assert(credential_messages(c)[i + 4] == c.claims[i]);
}

proof fn lemma_chosen_index(claims: Seq<Named>, disclose: Seq<Seq<char>>, i: int)
    requires
        claims.len() + 4 <= usize::MAX,
        0 <= i < claims.len(),
        disclose.contains(claims[i].0),
    ensures
        exists|j: int|
            0 <= j < revealed_indices(claims, disclose).len() && revealed_indices(claims, disclose)[j]
                == i + 4,
    decreases claims.len(),
{
    let p = claims.drop_last();
    let before = revealed_indices(p, disclose);
    let all = revealed_indices(claims, disclose);
    if i == claims.len() - 1 {
        assert(all[before.len() as int] == i + 4);
    } else {
        assert(p[i] == claims[i]);
        lemma_chosen_index(p, disclose, i);
        let j = choose|j: int| 0 <= j < before.len() && before[j] == i + 4;
        assert(all[j] == i + 4);
    }
}

/// A claim is disclosed exactly where a message behind the first four is revealed under its name.
pub proof fn every_revealed_claim_is_disclosed(
    p: PresentationView,
    disclosed: Seq<Named>,
    name: Seq<char>,
)
    requires
        collects(p.revealed, disclosed),
    ensures
        json::value_in(disclosed, name) is Some <==> exists|i: int|
            0 <= i < p.revealed.len() && (#[trigger] p.revealed[i]).index > 3 && p.revealed[i].name
                == name,
        json::value_in(disclosed, name) is Some ==> exists|i: int|
            0 <= i < p.revealed.len() && (#[trigger] p.revealed[i]).index > 3 && p.revealed[i].name
                == name && p.revealed[i].value == json::value_in(disclosed, name)->0,
{
    assert(json::value_in(disclosed, name) == claim_value(p.revealed, name));
    if claim_value(p.revealed, name) is Some {
        let i = lemma_claim_value(p.revealed, name);
        assert(p.revealed[i].index > 3);
    }
    if exists|i: int|
        0 <= i < p.revealed.len() && (#[trigger] p.revealed[i]).index > 3 && p.revealed[i].name
            == name {
        let i = choose|i: int|
            0 <= i < p.revealed.len() && (#[trigger] p.revealed[i]).index > 3
                && p.revealed[i].name == name;
        lemma_claim_found(p.revealed, name, i);
    }
}

proof fn lemma_claim_found(v: Seq<RevealedView>, name: Seq<char>, i: int)
    requires
        0 <= i < v.len(),
        v[i].index > 3,
        v[i].name == name,
    ensures
        claim_value(v, name) is Some,
    decreases v.len(),
{
    if !(v.last().index > 3 && v.last().name == name) {
        assert(v.drop_last()[i] == v[i]);
        lemma_claim_found(v.drop_last(), name, i);
    }
}

proof fn lemma_registered_later(v: Seq<RevealedView>, i: int)
    requires
        0 <= i < v.len(),
        forall|a: int, b: int|
            0 <= a < b < v.len() ==> (#[trigger] v[a]).index != (#[trigger] v[b]).index,
    ensures
        v[i].index == 0 ==> registered(v).issuer == text_value(v[i].value),
        v[i].index == 1 ==> registered(v).subject == text_value(v[i].value),
        v[i].index == 2 ==> registered(v).exp == number_value(v[i].value),
    decreases v.len(),
{
    if i < v.len() - 1 {
        let p = v.drop_last();
        assert forall|a: int, b: int| 0 <= a < b < p.len() implies (#[trigger] p[a]).index != (
        #[trigger] p[b]).index by {
            assert(p[a] == v[a] && p[b] == v[b]);
        }
        assert(p[i] == v[i]);
        lemma_registered_later(p, i);
        assert(v[i].index != v[v.len() - 1].index);
    }
}

/// The issuer, the subject and the expiry of a presentation are those that it reveals in their own
/// places, and no claim can stand in for them.
pub proof fn the_registered_parts_are_read_from_their_places(p: PresentationView, i: int)
    requires
        presentable(p),
        0 <= i < p.revealed.len(),
    ensures
        p.revealed[i].index == 0 && p.revealed[i].value is Text ==> registered(p.revealed).issuer
            == p.revealed[i].value->Text_0,
        p.revealed[i].index == 1 && p.revealed[i].value is Text ==> registered(p.revealed).subject
            == p.revealed[i].value->Text_0,
        p.revealed[i].index == 2 && p.revealed[i].value is Negative ==> registered(p.revealed).exp
            == p.revealed[i].value->Negative_0,
        p.revealed[i].index == 2 && p.revealed[i].value is Whole && p.revealed[i].value->Whole_0
            <= i64::MAX ==> registered(p.revealed).exp == p.revealed[i].value->Whole_0,
{
    lemma_registered_later(p.revealed, i);
}

// -- What a message stands for --------------------------------------------------------------------------

/// A message says its name and its value: messages of one name with one text have the same value's text,
/// and messages whose names have no equals sign, with one text, have one name.
pub proof fn a_message_says_its_name_and_value(a: Named, b: Named)
    requires
        message_text(a) == message_text(b),
    ensures
        a.0 == b.0 ==> json::compact(a.1) == json::compact(b.1),
        !a.0.contains('=') && !b.0.contains('=') ==> a.0 == b.0,
{
    reveal_strlit("=");
    let (s, t) = (message_text(a), message_text(b));
    if a.0 == b.0 {
        let n = a.0.len() as int + 1;
        assert(s.skip(n) =~= json::compact(a.1));
        assert(t.skip(n) =~= json::compact(b.1));
    }
    if !a.0.contains('=') && !b.0.contains('=') {
        let (m, n) = (a.0.len() as int, b.0.len() as int);
        assert(s[m] == '=' && t[n] == '=');
        if m < n {
            assert(t[m] == b.0[m]);
            assert(b.0.contains(b.0[m]));
        }
        if n < m {
            assert(s[n] == a.0[n]);
            assert(a.0.contains(a.0[n]));
        }
        assert(s.take(m) =~= a.0);
        assert(t.take(n) =~= b.0);
    }
}

/// A digest stands for one message text, unless SHA-256 fails on the two.
pub proof fn a_message_digest_stands_for_one_text(a: Named, b: Named)
    requires
        message_digest(a) == message_digest(b),
    ensures
        message_text(a) == message_text(b) || crypto::breaks_on(
            set![encoding::utf8(message_text(a)), encoding::utf8(message_text(b))],
        ),
{
    let (x, y) = (encoding::utf8(message_text(a)), encoding::utf8(message_text(b)));
    let inputs = set![x, y];
    if !crypto::breaks_on(inputs) {
        assert(inputs.contains(x) && inputs.contains(y));
        encoding::lemma_utf8_injective(message_text(a), message_text(b));
    }
}

/// A proof is made and checked over the digest of each message, name and value, in its own place.
pub proof fn a_proof_is_over_each_message(
    messages: Seq<Named>,
    revealed: Seq<RevealedView>,
    i: int,
    j: int,
)
    requires
        0 <= i < messages.len(),
        0 <= j < revealed.len(),
    ensures
        digests_of(messages).len() == messages.len(),
        digests_of(messages)[i] == crypto::sha256_digest(encoding::utf8(message_text(messages[i]))),
        revealed_digests(revealed).len() == revealed.len(),
        revealed_digests(revealed)[j].0 == revealed[j].index,
        revealed_digests(revealed)[j].1 == crypto::sha256_digest(
            encoding::utf8(message_text((revealed[j].name, revealed[j].value))),
        ),
{
}

/// A presentation for which all holds that is asked of one is accepted: where the nonce is the one asked
/// for, the key decodes, the proof verifies, the key's binding holds where it has one and names the issuer,
/// and it has not expired. One that fails only for its age or its issuer is refused for that.
pub proof fn a_good_presentation_is_accepted(
    p: PresentationView,
    k: BbsKeyView,
    now: int,
    r: Result<DisclosedView, ErrorView>,
)
    requires
        present_outcome(p, k, p.nonce, now, r),
        proofs::bbs_key_decodes(k.bytes) is Ok,
        accepted(p, k.bytes),
        k.did != "bbs-issuer"@ && k.attestation.len() > 0 ==> binding_verifies(k) is Ok,
        time::MIN_SECS <= registered(p.revealed).exp <= time::MAX_SECS,
    ensures
        now <= registered(p.revealed).exp * time::NANOS_PER_SEC && (k.did != "bbs-issuer"@
            && k.attestation.len() > 0 ==> registered(p.revealed).issuer == k.did) ==> r is Ok,
        now > registered(p.revealed).exp * time::NANOS_PER_SEC ==> r is Err
            && r->Err_0 is CredentialExpired,
        now <= registered(p.revealed).exp * time::NANOS_PER_SEC && k.did != "bbs-issuer"@
            && k.attestation.len() > 0 && registered(p.revealed).issuer != k.did ==> r is Err
            && r->Err_0 is IssuerMismatch,
{
}

/// A key whose binding does not hold is refused, whatever was proved under it.
pub proof fn a_key_with_a_broken_binding_is_refused(
    p: PresentationView,
    k: BbsKeyView,
    expected_nonce: Seq<u8>,
    now: int,
    r: Result<DisclosedView, ErrorView>,
)
    requires
        k.did != "bbs-issuer"@,
        k.attestation.len() > 0,
        binding_verifies(k) is Err,
        present_outcome(p, k, expected_nonce, now, r),
    ensures
        r is Err,
{
}

} // verus!
