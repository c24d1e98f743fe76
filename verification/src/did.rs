//! Decentralized identifiers: methods, public keys, documents, agent identities and
//! trust anchors.

use vstd::prelude::*;
use vstd::string::*;
use crate::base58;
use crate::crypto;
use crate::crypto::SecretBytes;
use crate::encoding;
use crate::error::{AgentCredsError, ErrorView};
use crate::registry;
use crate::text;
use crate::time::Timestamp;

pub mod resolver;

pub use crate::did::resolver::{is_of_method, DidResolver, InMemoryResolver, UniversalResolver};

verus! {

// -- DID methods --------------------------------------------------------------------

/// Cheqd networks.
#[derive(Debug, Clone, Copy, PartialEq, Eq, Structural)]
pub enum CheqdNetwork {
    /// Cheqd mainnet.
    Mainnet,
    /// Cheqd testnet.
    Testnet,
}

/// The name of a Cheqd network.
pub open spec fn network_text(n: CheqdNetwork) -> Seq<char> {
    match n {
        CheqdNetwork::Mainnet => "mainnet"@,
        CheqdNetwork::Testnet => "testnet"@,
    }
}

impl CheqdNetwork {
    /// The network's name as it stands in a DID.
    pub fn to_string(&self) -> (r: String)
        ensures
            r@ == network_text(*self),
    {
        match self {
            CheqdNetwork::Mainnet => "mainnet".to_owned(),
            CheqdNetwork::Testnet => "testnet".to_owned(),
        }
    }
}

/// Supported DID methods.
#[derive(Debug, Clone, PartialEq, Eq)]
#[non_exhaustive]
pub enum DidMethod {
    /// `did:key` - derived directly from public key bytes, no registry lookup.
    Key,
    /// `did:web` - anchored to a domain.
    Web {
        /// DNS host (e.g. `example.com`).
        host: String,
        /// Optional path suffix (e.g. `users/alice`).
        path: Option<String>,
    },
    /// `did:cheqd` - on the Cheqd network.
    Cheqd {
        /// Cheqd network (mainnet or testnet).
        network: CheqdNetwork,
        /// Network-unique identifier portion of the DID.
        unique_id: String,
    },
    /// `did:indy` - Hyperledger Indy DID.
    Indy {
        /// Indy ledger namespace (e.g. `sovrin:main`).
        namespace: String,
        /// Ledger-unique identifier portion of the DID.
        unique_id: String,
    },
}

/// A DID method as mathematical values.
#[verifier::ext_equal]
pub enum DidMethodView {
    Key,
    Web { host: Seq<char>, path: Option<Seq<char>> },
    Cheqd { network: CheqdNetwork, unique_id: Seq<char> },
    Indy { namespace: Seq<char>, unique_id: Seq<char> },
}

impl View for DidMethod {
    type V = DidMethodView;

    open spec fn view(&self) -> DidMethodView {
        match *self {
            DidMethod::Key => DidMethodView::Key,
            DidMethod::Web { host, path } => DidMethodView::Web {
                host: host@,
                path: text::opt_view(path),
            },
            DidMethod::Cheqd { network, unique_id } => DidMethodView::Cheqd {
                network,
                unique_id: unique_id@,
            },
            DidMethod::Indy { namespace, unique_id } => DidMethodView::Indy {
                namespace: namespace@,
                unique_id: unique_id@,
            },
        }
    }
}

/// The canonical text of a DID method, with a path's slashes as colons.
pub open spec fn method_text(m: DidMethod) -> Seq<char> {
    match m {
        DidMethod::Key => "did:key"@,
        DidMethod::Web { host, path } => match path {
            Some(p) => "did:web:"@ + host@ + ":"@ + text::replaced(p@, '/', ':'),
            None => "did:web:"@ + host@,
        },
        DidMethod::Cheqd { network, unique_id } => "did:cheqd:"@ + network_text(network) + ":"@
            + unique_id@,
        DidMethod::Indy { namespace, unique_id } => "did:indy:"@ + namespace@ + ":"@ + unique_id@,
    }
}

impl DidMethod {
    /// The method's canonical text.
    pub fn to_string(&self) -> (r: String)
        ensures
            r@ == method_text(*self),
    {
        match self {
            DidMethod::Key => "did:key".to_owned(),
            DidMethod::Web { host, path } => {
                let mut s = "did:web:".to_owned();
                s.append(host.as_str());
                match path {
                    Some(p) => {
                        s.append(":");
                        s.append(text::replace_char(p.as_str(), '/', ':').as_str());
                    },
                    None => {},
                }
                s
            },
            DidMethod::Cheqd { network, unique_id } => {
                let mut s = "did:cheqd:".to_owned();
                s.append(network.to_string().as_str());
                s.append(":");
                s.append(unique_id.as_str());
                s
            },
            DidMethod::Indy { namespace, unique_id } => {
                let mut s = "did:indy:".to_owned();
                s.append(namespace.as_str());
                s.append(":");
                s.append(unique_id.as_str());
                s
            },
        }
    }
}

// -- Keys -----------------------------------------------------------------------------

/// Cryptographic key algorithm.
#[derive(Debug, Clone, Copy, PartialEq, Eq, Structural)]
pub enum KeyAlgorithm {
    /// Ed25519 - default, fast, small signatures.
    Ed25519,
    /// P-256 (ECDSA) - FIPS-approved, required by some enterprise policies.
    P256,
}

impl Default for KeyAlgorithm {
    fn default() -> (r: Self)
        ensures
            r == KeyAlgorithm::Ed25519,
    {
        KeyAlgorithm::Ed25519
    }
}

/// The algorithm's name.
pub open spec fn algorithm_text(a: KeyAlgorithm) -> Seq<char> {
    match a {
        KeyAlgorithm::Ed25519 => "Ed25519"@,
        KeyAlgorithm::P256 => "P256"@,
    }
}

/// The multicodec prefix of a public key.
pub open spec fn multicodec(a: KeyAlgorithm) -> Seq<u8> {
    match a {
        KeyAlgorithm::Ed25519 => seq![0xedu8, 0x01u8],
        KeyAlgorithm::P256 => seq![0x12u8, 0x00u8],
    }
}

/// The length of an encoded public key.
pub open spec fn key_length(a: KeyAlgorithm) -> nat {
    match a {
        KeyAlgorithm::Ed25519 => 32,
        KeyAlgorithm::P256 => 33,
    }
}

/// The verification method type of a key.
pub open spec fn method_type(a: KeyAlgorithm) -> Seq<char> {
    match a {
        KeyAlgorithm::Ed25519 => "Ed25519VerificationKey2020"@,
        KeyAlgorithm::P256 => "EcdsaSecp256r1VerificationKey2019"@,
    }
}

/// Public key bytes with algorithm tag.
#[derive(Debug)]
pub struct PublicKey {
    /// The signature algorithm this key belongs to.
    pub algorithm: KeyAlgorithm,
    /// Raw public key bytes (encoding is algorithm-dependent).
    pub bytes: Vec<u8>,
}

/// A public key as mathematical values.
#[verifier::ext_equal]
pub struct KeyView {
    pub algorithm: KeyAlgorithm,
    pub bytes: Seq<u8>,
}

impl View for PublicKey {
    type V = KeyView;

    open spec fn view(&self) -> KeyView {
        KeyView { algorithm: self.algorithm, bytes: self.bytes@ }
    }
}

impl Clone for PublicKey {
    fn clone(&self) -> (r: Self)
        ensures
            r@ == self@,
    {
        let mut bytes: Vec<u8> = Vec::new();
        encoding::put_bytes(&mut bytes, self.bytes.as_slice());
        assert(bytes@ =~= self.bytes@);
        PublicKey { algorithm: self.algorithm, bytes }
    }
}

/// The multibase (base58btc) text of a public key, with its multicodec prefix.
pub open spec fn multibase_text(k: KeyView) -> Seq<char> {
    "z"@ + base58::base58_text(multicodec(k.algorithm) + k.bytes)
}

/// The `did:key` of a public key.
pub open spec fn did_key_text(k: KeyView) -> Seq<char> {
    "did:key:"@ + multibase_text(k)
}

/// The algorithm that a multicodec prefix names.
pub open spec fn prefix_algorithm(b: Seq<u8>) -> Option<KeyAlgorithm> {
    if b.len() >= 2 && b.take(2) == multicodec(KeyAlgorithm::Ed25519) {
        Some(KeyAlgorithm::Ed25519)
    } else if b.len() >= 2 && b.take(2) == multicodec(KeyAlgorithm::P256) {
        Some(KeyAlgorithm::P256)
    } else {
        None
    }
}

/// The key that prefixed bytes hold, or what is wrong with them.
pub open spec fn key_of_prefixed(b: Seq<u8>) -> Result<KeyView, ErrorView> {
    match prefix_algorithm(b) {
        None => Err(
            ErrorView::InvalidKeyMaterial { reason: "unrecognised did:key multicodec prefix"@ },
        ),
        Some(a) => if b.len() - 2 != key_length(a) {
            Err(
                ErrorView::InvalidKeyMaterial {
                    reason: "did:key public key length "@ + text::decimal((b.len() - 2) as nat)
                        + " does not match algorithm "@ + algorithm_text(a),
                },
            )
        } else {
            Ok(KeyView { algorithm: a, bytes: b.skip(2) })
        },
    }
}

/// The key in a `did:key`, or the error of a text that is none.
pub open spec fn did_key_of(did: Seq<char>) -> Result<KeyView, ErrorView> {
    let body = did.skip("did:key:"@.len() as int);
    let encoded = body.skip(1);
    if !text::begins(did, "did:key:"@) {
        Err(ErrorView::InvalidKeyMaterial { reason: "not a did:key identifier: "@ + did })
    } else if !text::begins(body, "z"@) {
        Err(
            ErrorView::InvalidKeyMaterial {
                reason: "did:key body is not base58btc multibase (expected 'z' prefix)"@,
            },
        )
    } else if !base58::is_base58(encoded) {
        Err(
            ErrorView::InvalidKeyMaterial {
                reason: "did:key base58 decode failed: "@ + base58::base58_error(encoded),
            },
        )
    } else {
        key_of_prefixed(base58::base58_bytes(encoded))
    }
}

/// Whether a signature over a message is good under a key, or the error it gives.
pub open spec fn key_verifies(k: KeyView, message: Seq<u8>, signature: Seq<u8>) -> Result<
    (),
    ErrorView,
> {
    match k.algorithm {
        KeyAlgorithm::Ed25519 => {
            if k.bytes.len() != 32 {
                Err(ErrorView::InvalidKeyMaterial { reason: "Ed25519 public key wrong length"@ })
            } else {
                match crypto::ed25519_key_decodes(k.bytes) {
                    Err(e) => Err(ErrorView::InvalidKeyMaterial { reason: e }),
                    Ok(_) => if signature.len() != 64 {
                        Err(ErrorView::InvalidDidSignature { reason: "signature wrong length"@ })
                    } else {
                        match crypto::ed25519_verifies(k.bytes, message, signature) {
                            Err(e) => Err(ErrorView::InvalidDidSignature { reason: e }),
                            Ok(_) => Ok(()),
                        }
                    },
                }
            }
        },
        KeyAlgorithm::P256 => match crypto::p256_key_decodes(k.bytes) {
            Err(e) => Err(ErrorView::InvalidKeyMaterial { reason: e }),
            Ok(_) => match crypto::p256_signature_decodes(signature) {
                Err(e) => Err(ErrorView::InvalidDidSignature { reason: e }),
                Ok(_) => match crypto::p256_verifies(k.bytes, message, signature) {
                    Err(e) => Err(ErrorView::InvalidDidSignature { reason: e }),
                    Ok(_) => Ok(()),
                },
            },
        },
    }
}

/// A result by view, where success carries nothing.
pub open spec fn unit_view(r: Result<(), AgentCredsError>) -> Result<(), ErrorView> {
    match r {
        Ok(_) => Ok(()),
        Err(e) => Err(e@),
    }
}

/// A key result by view.
pub open spec fn key_result(r: Result<PublicKey, AgentCredsError>) -> Result<KeyView, ErrorView> {
    match r {
        Ok(k) => Ok(k@),
        Err(e) => Err(e@),
    }
}

fn key_material(reason: String) -> (r: AgentCredsError)
    ensures
        r@ == (ErrorView::InvalidKeyMaterial { reason: reason@ }),
{
    AgentCredsError::InvalidKeyMaterial { reason }
}

fn prefix_of(a: KeyAlgorithm) -> (r: Vec<u8>)
    ensures
        r@ == multicodec(a),
{
    let mut v: Vec<u8> = Vec::new();
    match a {
        KeyAlgorithm::Ed25519 => {
            v.push(0xed);
            v.push(0x01);
        },
        KeyAlgorithm::P256 => {
            v.push(0x12);
            v.push(0x00);
        },
    }
    assert(v@ =~= multicodec(a));
    v
}

impl PublicKey {
    /// Encode as multibase (base58btc) for did:key identifiers.
    pub fn to_multibase(&self) -> (r: String)
        ensures
            r@ == multibase_text(self@),
    {
        let mut prefixed = prefix_of(self.algorithm);
        encoding::put_bytes(&mut prefixed, self.bytes.as_slice());
        let mut s = "z".to_owned();
        s.append(base58::bs58_encode(prefixed.as_slice()).as_str());
        s
    }

    /// Recover a public key from a `did:key` identifier, which holds it.
    ///
    /// # Errors
    /// `InvalidKeyMaterial` if `did` is not a `did:key`, the multibase body is malformed,
    /// the multicodec prefix is unrecognised, or the key length is wrong for the
    /// indicated algorithm.
    pub fn from_did_key(did: &str) -> (r: Result<Self, AgentCredsError>)
        ensures
            key_result(r) == did_key_of(did@),
    {
        let body = match text::strip_prefix(did, "did:key:") {
            Some(b) => b,
            None => {
                let mut reason = "not a did:key identifier: ".to_owned();
                reason.append(did);
                return Err(key_material(reason));
            },
        };
        proof {
            reveal_strlit("z");
        }
        let encoded = match text::strip_prefix(body.as_str(), "z") {
            Some(e) => e,
            None => {
                return Err(
                    key_material(
                        "did:key body is not base58btc multibase (expected 'z' prefix)".to_owned(),
                    ),
                );
            },
        };
        assert(encoded@ == did@.skip("did:key:"@.len() as int).skip(1));
        let decoded = match base58::bs58_decode(encoded.as_str()) {
            Ok(b) => b,
            Err(e) => {
                let mut reason = "did:key base58 decode failed: ".to_owned();
                reason.append(e.as_str());
                return Err(key_material(reason));
            },
        };
        proof {
            base58::lemma_base58_bytes(decoded@, encoded@);
        }
        key_from_prefixed(&decoded)
    }

    /// Verify a signature produced over `message` against this public key.
    ///
    /// # Errors
    /// `InvalidKeyMaterial` if the stored key bytes are malformed, or
    /// `InvalidDidSignature` if the signature does not verify.
    pub fn verify(&self, message: &[u8], signature_bytes: &[u8]) -> (r: Result<
        (),
        AgentCredsError,
    >)
        ensures
            unit_view(r) == key_verifies(self@, message@, signature_bytes@),
    {
        match self.algorithm {
            KeyAlgorithm::Ed25519 => {
                if self.bytes.len() != 32 {
                    return Err(key_material("Ed25519 public key wrong length".to_owned()));
                }
                match crypto::ed25519_check_key(self.bytes.as_slice()) {
                    Ok(_) => {},
                    Err(e) => {
                        return Err(key_material(e));
                    },
                }
                if signature_bytes.len() != 64 {
                    return Err(
                        AgentCredsError::InvalidDidSignature {
                            reason: "signature wrong length".to_owned(),
                        },
                    );
                }
                match crypto::ed25519_verify(self.bytes.as_slice(), message, signature_bytes) {
                    Ok(_) => Ok(()),
                    Err(e) => Err(AgentCredsError::InvalidDidSignature { reason: e }),
                }
            },
            KeyAlgorithm::P256 => {
                match crypto::p256_check_key(self.bytes.as_slice()) {
                    Ok(_) => {},
                    Err(e) => {
                        return Err(key_material(e));
                    },
                }
                match crypto::p256_check_signature(signature_bytes) {
                    Ok(_) => {},
                    Err(e) => {
                        return Err(AgentCredsError::InvalidDidSignature { reason: e });
                    },
                }
                match crypto::p256_verify(self.bytes.as_slice(), message, signature_bytes) {
                    Ok(_) => Ok(()),
                    Err(e) => Err(AgentCredsError::InvalidDidSignature { reason: e }),
                }
            },
        }
    }
}

/// The key held by multicodec-prefixed bytes, once the base 58 text is decoded.
pub fn key_from_prefixed(decoded: &Vec<u8>) -> (r: Result<PublicKey, AgentCredsError>)
    ensures
        key_result(r) == key_of_prefixed(decoded@),
{
    let algorithm = if has_prefix(decoded, KeyAlgorithm::Ed25519) {
        KeyAlgorithm::Ed25519
    } else if has_prefix(decoded, KeyAlgorithm::P256) {
        KeyAlgorithm::P256
    } else {
        return Err(key_material("unrecognised did:key multicodec prefix".to_owned()));
    };
    let expected: usize = match algorithm {
        KeyAlgorithm::Ed25519 => 32,
        KeyAlgorithm::P256 => 33,
    };
    let length: usize = decoded.len() - 2;
    if length != expected {
        let mut reason = "did:key public key length ".to_owned();
        reason.append(text::u64_text(length as u64).as_str());
        reason.append(" does not match algorithm ");
        match algorithm {
            KeyAlgorithm::Ed25519 => reason.append("Ed25519"),
            KeyAlgorithm::P256 => reason.append("P256"),
        }
        return Err(key_material(reason));
    }
    Ok(PublicKey { algorithm, bytes: after_prefix(decoded) })
}

fn has_prefix(b: &Vec<u8>, a: KeyAlgorithm) -> (r: bool)
    ensures
        r == (b@.len() >= 2 && b@.take(2) == multicodec(a)),
{
    let p = prefix_of(a);
    if b.len() < 2 {
        return false;
    }
    let same = b[0] == p[0] && b[1] == p[1];
    proof {
        if same {
            assert(b@.take(2) =~= multicodec(a));
        } else {
            assert(b@.take(2)[0] == b@[0] && b@.take(2)[1] == b@[1]);
        }
    }
    same
}

fn after_prefix(b: &Vec<u8>) -> (r: Vec<u8>)
    requires
        b@.len() >= 2,
    ensures
        r@ == b@.skip(2),
{
    let mut out: Vec<u8> = Vec::new();
    for i in 2..b.len()
        invariant
            b@.len() >= 2,
            out@ == b@.subrange(2, i as int),
    {
        out.push(b[i]);
        assert(b@.subrange(2, i + 1) =~= b@.subrange(2, i as int).push(b@[i as int]));
    }
    assert(b@.subrange(2, b@.len() as int) =~= b@.skip(2));
    out
}

/// A key of the right length comes back from its own `did:key`.
pub proof fn did_key_round_trip(k: KeyView)
    requires
        k.bytes.len() == key_length(k.algorithm),
    ensures
        did_key_of(did_key_text(k)) == Ok::<KeyView, ErrorView>(k),
{
    reveal_strlit("did:key:");
    reveal_strlit("z");
    let b = multicodec(k.algorithm) + k.bytes;
    let s = base58::base58_text(b);
    let did = did_key_text(k);
    let body = did.skip("did:key:"@.len() as int);
    assert(did.take("did:key:"@.len() as int) =~= "did:key:"@);
    assert(body =~= "z"@ + s);
    assert(body.take(1) =~= "z"@);
    assert(body.skip(1) =~= s);
    base58::lemma_first_byte(b);
    base58::lemma_text_exists(b);
    base58::lemma_base58_round_trip(s, b);
    assert(b.take(2) =~= multicodec(k.algorithm));
    assert(b.skip(2) =~= k.bytes);
    assert(multicodec(KeyAlgorithm::Ed25519)[0] != multicodec(KeyAlgorithm::P256)[0]);
}

// -- Attestation of delegation keys ---------------------------------------------------

/// The bytes a primary identity key signs to attest a delegation key.
pub open spec fn attestation_bytes(delegation_public: Seq<u8>) -> Seq<u8> {
    encoding::utf8("agentcreds-delegation-key-v1"@) + delegation_public
}

/// The exact bytes a primary identity key signs to attest a delegation key.
pub fn delegation_attestation_message(delegation_public: &[u8]) -> (r: Vec<u8>)
    ensures
        r@ == attestation_bytes(delegation_public@),
{
    let mut m: Vec<u8> = Vec::new();
    encoding::put_bytes(&mut m, "agentcreds-delegation-key-v1".as_bytes());
    encoding::put_bytes(&mut m, delegation_public);
    assert(m@ =~= attestation_bytes(delegation_public@));
    m
}

// -- DID documents --------------------------------------------------------------------

/// A verification method entry in a DID document.
#[derive(Debug)]
pub struct VerificationMethod {
    /// Identifier for this key within the DID document (e.g. `did:key:z...#key-1`).
    pub id: String,
    /// Verification method type (e.g. `Ed25519VerificationKey2020`).
    pub vm_type: String,
    /// DID of the entity that controls this key.
    pub controller: String,
    /// Multibase-encoded public key bytes (base58btc prefix `z`).
    pub public_key_multibase: String,
}

/// A verification method as mathematical values.
#[verifier::ext_equal]
pub struct MethodView {
    pub id: Seq<char>,
    pub vm_type: Seq<char>,
    pub controller: Seq<char>,
    pub public_key_multibase: Seq<char>,
}

impl View for VerificationMethod {
    type V = MethodView;

    open spec fn view(&self) -> MethodView {
        MethodView {
            id: self.id@,
            vm_type: self.vm_type@,
            controller: self.controller@,
            public_key_multibase: self.public_key_multibase@,
        }
    }
}

impl Clone for VerificationMethod {
    fn clone(&self) -> (r: Self)
        ensures
            r@ == self@,
    {
        VerificationMethod {
            id: self.id.clone(),
            vm_type: self.vm_type.clone(),
            controller: self.controller.clone(),
            public_key_multibase: self.public_key_multibase.clone(),
        }
    }
}

/// W3C DID document, simplified.
#[derive(Debug)]
pub struct DidDocument {
    /// JSON-LD context URIs.
    pub context: Vec<String>,
    /// The DID that this document describes.
    pub id: String,
    /// Verification methods (public keys) listed in this document.
    pub verification_method: Vec<VerificationMethod>,
    /// Verification method references allowed for authentication.
    pub authentication: Vec<String>,
    /// Verification method references allowed for assertion (VC signing).
    pub assertion_method: Vec<String>,
    /// Verification method references allowed to sign delegation blocks.
    pub capability_delegation: Vec<String>,
    /// When this DID document was created.
    pub created: Timestamp,
    /// When this DID document was last updated.
    pub updated: Timestamp,
}

/// A DID document as mathematical values.
#[verifier::ext_equal]
pub struct DocumentView {
    pub context: Seq<Seq<char>>,
    pub id: Seq<char>,
    pub verification_method: Seq<MethodView>,
    pub authentication: Seq<Seq<char>>,
    pub assertion_method: Seq<Seq<char>>,
    pub capability_delegation: Seq<Seq<char>>,
    pub created: int,
    pub updated: int,
}

impl View for DidDocument {
    type V = DocumentView;

    open spec fn view(&self) -> DocumentView {
        DocumentView {
            context: text::views(self.context@),
            id: self.id@,
            verification_method: self.verification_method@.map_values(
                |m: VerificationMethod| m@,
            ),
            authentication: text::views(self.authentication@),
            assertion_method: text::views(self.assertion_method@),
            capability_delegation: text::views(self.capability_delegation@),
            created: self.created@,
            updated: self.updated@,
        }
    }
}

impl Clone for DidDocument {
    fn clone(&self) -> (r: Self)
        ensures
            r@ == self@,
    {
        let mut methods: Vec<VerificationMethod> = Vec::new();
        for i in 0..self.verification_method.len()
            invariant
                methods@.len() == i,
                forall|j: int|
                    0 <= j < i ==> (#[trigger] methods@[j])@ == self.verification_method@[j]@,
        {
            methods.push(self.verification_method[i].clone());
        }
        assert(methods@.map_values(|m: VerificationMethod| m@)
            =~= self.verification_method@.map_values(|m: VerificationMethod| m@));
        DidDocument {
            context: text::strings_clone(&self.context),
            id: self.id.clone(),
            verification_method: methods,
            authentication: text::strings_clone(&self.authentication),
            assertion_method: text::strings_clone(&self.assertion_method),
            capability_delegation: text::strings_clone(&self.capability_delegation),
            created: self.created,
            updated: self.updated,
        }
    }
}

impl DidDocument {
    /// The multibase text of the document's first verification key.
    pub fn primary_key_multibase(&self) -> (r: Option<&str>)
        ensures
            self@.verification_method.len() == 0 ==> r is None,
            self@.verification_method.len() > 0 ==> r is Some && r->0@
                == self@.verification_method[0].public_key_multibase,
    {
        if self.verification_method.len() == 0 {
            None
        } else {
            Some(self.verification_method[0].public_key_multibase.as_str())
        }
    }
}

/// The contexts every document lists.
pub open spec fn document_context() -> Seq<Seq<char>> {
    seq![
        "https://www.w3.org/ns/did/v1"@,
        "https://w3id.org/security/suites/ed25519-2020/v1"@,
    ]
}

/// The verification method of a key under a DID.
pub open spec fn method_view(did: Seq<char>, fragment: Seq<char>, k: KeyView) -> MethodView {
    MethodView {
        id: did + fragment,
        vm_type: method_type(k.algorithm),
        controller: did,
        public_key_multibase: multibase_text(k),
    }
}

/// The document of an agent: its primary key, and the delegation subkey listed for
/// capability delegation.
pub open spec fn agent_document(
    did: Seq<char>,
    k: KeyView,
    delegation_public: Seq<u8>,
    now: int,
) -> DocumentView {
    let deleg = KeyView { algorithm: KeyAlgorithm::Ed25519, bytes: delegation_public };
    DocumentView {
        context: document_context(),
        id: did,
        verification_method: seq![
            method_view(did, "#key-1"@, k),
            method_view(did, "#deleg-1"@, deleg),
        ],
        authentication: seq![did + "#key-1"@],
        assertion_method: seq![did + "#key-1"@],
        capability_delegation: seq![did + "#deleg-1"@],
        created: now,
        updated: now,
    }
}

/// The document of an anchor: a single verification method, no delegation subkey.
pub open spec fn anchor_document(did: Seq<char>, k: KeyView, now: int) -> DocumentView {
    DocumentView {
        context: document_context(),
        id: did,
        verification_method: seq![method_view(did, "#key-1"@, k)],
        authentication: seq![did + "#key-1"@],
        assertion_method: seq![did + "#key-1"@],
        capability_delegation: seq![],
        created: now,
        updated: now,
    }
}

fn contexts() -> (r: Vec<String>)
    ensures
        text::views(r@) == document_context(),
{
    let mut v: Vec<String> = Vec::new();
    v.push("https://www.w3.org/ns/did/v1".to_owned());
    v.push("https://w3id.org/security/suites/ed25519-2020/v1".to_owned());
    assert(text::views(v@) =~= document_context());
    v
}

fn method_entry(did: &str, fragment: &str, key: &PublicKey) -> (r: VerificationMethod)
    ensures
        r@ == method_view(did@, fragment@, key@),
{
    let mut id = did.to_owned();
    id.append(fragment);
    let vm_type = match key.algorithm {
        KeyAlgorithm::Ed25519 => "Ed25519VerificationKey2020".to_owned(),
        KeyAlgorithm::P256 => "EcdsaSecp256r1VerificationKey2019".to_owned(),
    };
    VerificationMethod {
        id,
        vm_type,
        controller: did.to_owned(),
        public_key_multibase: key.to_multibase(),
    }
}

fn one_reference(did: &str, fragment: &str) -> (r: Vec<String>)
    ensures
        text::views(r@) == seq![did@ + fragment@],
{
    let mut id = did.to_owned();
    id.append(fragment);
    let mut v: Vec<String> = Vec::new();
    v.push(id);
    assert(text::views(v@) =~= seq![did@ + fragment@]);
    v
}

/// Builds an agent's DID document as of `now`.
pub fn build_document(
    did: &str,
    public_key: &PublicKey,
    delegation_public: &Vec<u8>,
    now: Timestamp,
) -> (r: DidDocument)
    ensures
        r@ == agent_document(did@, public_key@, delegation_public@, now@),
{
    let mut deleg_bytes: Vec<u8> = Vec::new();
    encoding::put_bytes(&mut deleg_bytes, delegation_public.as_slice());
    let deleg = PublicKey { algorithm: KeyAlgorithm::Ed25519, bytes: deleg_bytes };
    assert(deleg@.bytes =~= delegation_public@);
    let mut methods: Vec<VerificationMethod> = Vec::new();
    methods.push(method_entry(did, "#key-1", public_key));
    methods.push(method_entry(did, "#deleg-1", &deleg));
    let doc = DidDocument {
        context: contexts(),
        id: did.to_owned(),
        verification_method: methods,
        authentication: one_reference(did, "#key-1"),
        assertion_method: one_reference(did, "#key-1"),
        capability_delegation: one_reference(did, "#deleg-1"),
        created: now,
        updated: now,
    };
    assert(doc@.verification_method =~= agent_document(
        did@,
        public_key@,
        delegation_public@,
        now@,
    ).verification_method);
    doc
}

/// Builds an anchor's DID document as of `now`.
pub fn build_anchor_document(did: &str, public_key: &PublicKey, now: Timestamp) -> (r: DidDocument)
    ensures
        r@ == anchor_document(did@, public_key@, now@),
{
    let mut methods: Vec<VerificationMethod> = Vec::new();
    methods.push(method_entry(did, "#key-1", public_key));
    let doc = DidDocument {
        context: contexts(),
        id: did.to_owned(),
        verification_method: methods,
        authentication: one_reference(did, "#key-1"),
        assertion_method: one_reference(did, "#key-1"),
        capability_delegation: Vec::new(),
        created: now,
        updated: now,
    };
    assert(doc@.verification_method =~= anchor_document(
        did@,
        public_key@,
        now@,
    ).verification_method);
    assert(doc@.capability_delegation =~= Seq::<Seq<char>>::empty());
    doc
}

/// A resolution failure for a DID.
pub open spec fn unresolved(did: Seq<char>, reason: Seq<char>) -> ErrorView {
    ErrorView::DidResolutionFailed { did, reason }
}

/// The algorithm that a verification method type names.
pub open spec fn type_algorithm(vm_type: Seq<char>) -> Option<KeyAlgorithm> {
    if vm_type == method_type(KeyAlgorithm::Ed25519) {
        Some(KeyAlgorithm::Ed25519)
    } else if vm_type == method_type(KeyAlgorithm::P256) {
        Some(KeyAlgorithm::P256)
    } else {
        None
    }
}

/// The primary key of a document: its first verification method's, whose type names the
/// algorithm and whose bytes carry that algorithm's multicodec prefix.
pub open spec fn document_key(did: Seq<char>, doc: DocumentView) -> Result<KeyView, ErrorView> {
    if doc.verification_method.len() == 0 {
        Err(unresolved(did, "resolved DID document has no verification method"@))
    } else {
        let vm = doc.verification_method[0];
        match registry::multibase_bytes(vm.public_key_multibase) {
            Err(reason) => Err(unresolved(did, reason)),
            Ok(b) => match type_algorithm(vm.vm_type) {
                None => Err(
                    unresolved(did, "unsupported verification method type: "@ + vm.vm_type),
                ),
                Some(a) => if b.len() >= 2 && b.take(2) == multicodec(a) {
                    Ok(KeyView { algorithm: a, bytes: b.skip(2) })
                } else {
                    Err(unresolved(did, "unexpected multicodec prefix on the public key"@))
                },
            },
        }
    }
}

fn resolution_failed(did: &str, reason: String) -> (r: AgentCredsError)
    ensures
        r@ == unresolved(did@, reason@),
{
    AgentCredsError::DidResolutionFailed { did: did.to_owned(), reason }
}

/// Extract the primary verification-method public key from a resolved DID document.
///
/// # Errors
/// `DidResolutionFailed` where the document has no verification method, or its key does
/// not decode, is of an unsupported type or carries another type's prefix.
pub fn public_key_from_did_document(did: &str, document: &DidDocument) -> (r: Result<
    PublicKey,
    AgentCredsError,
>)
    ensures
        key_result(r) == document_key(did@, document@),
{
    if document.verification_method.len() == 0 {
        return Err(
            resolution_failed(did, "resolved DID document has no verification method".to_owned()),
        );
    }
    let vm = &document.verification_method[0];
    assert(document@.verification_method[0] == vm@);
    let bytes = match registry::decode_multibase(vm.public_key_multibase.as_str()) {
        Ok(b) => b,
        Err(reason) => {
            return Err(resolution_failed(did, reason));
        },
    };
    let algorithm = if text::str_eq(vm.vm_type.as_str(), "Ed25519VerificationKey2020") {
        KeyAlgorithm::Ed25519
    } else if text::str_eq(vm.vm_type.as_str(), "EcdsaSecp256r1VerificationKey2019") {
        KeyAlgorithm::P256
    } else {
        let mut reason = "unsupported verification method type: ".to_owned();
        reason.append(vm.vm_type.as_str());
        return Err(resolution_failed(did, reason));
    };
    if !has_prefix(&bytes, algorithm) {
        return Err(
            resolution_failed(did, "unexpected multicodec prefix on the public key".to_owned()),
        );
    }
    Ok(PublicKey { algorithm, bytes: after_prefix(&bytes) })
}

/// The key in an anchor's or agent's own document is the key it was built from.
pub proof fn document_key_round_trip(did: Seq<char>, k: KeyView, doc: DocumentView)
    requires
        doc.verification_method.len() > 0,
        doc.verification_method[0] == method_view(did, "#key-1"@, k),
    ensures
        document_key(did, doc) == Ok::<KeyView, ErrorView>(k),
{
    reveal_strlit("z");
    reveal_strlit("Ed25519VerificationKey2020");
    reveal_strlit("EcdsaSecp256r1VerificationKey2019");
    let b = multicodec(k.algorithm) + k.bytes;
    let s = base58::base58_text(b);
    let m = multibase_text(k);
    assert(m.take(1) =~= "z"@);
    assert(m.skip(1) =~= s);
    base58::lemma_first_byte(b);
    base58::lemma_text_exists(b);
    base58::lemma_base58_round_trip(s, b);
    assert(b.take(2) =~= multicodec(k.algorithm));
    assert(b.skip(2) =~= k.bytes);
    assert(method_type(KeyAlgorithm::Ed25519).len() != method_type(KeyAlgorithm::P256).len());
}

/// What checking an attestation gives once the signer's primary key is known.
pub open spec fn attested_by(
    primary: Result<KeyView, ErrorView>,
    delegation_public: Seq<u8>,
    attestation: Seq<u8>,
) -> Result<(), ErrorView> {
    match primary {
        Err(e) => Err(e),
        Ok(k) => key_verifies(k, attestation_bytes(delegation_public), attestation),
    }
}

/// The DID method named in a DID, or `unknown`.
pub open spec fn method_name(did: Seq<char>) -> Seq<char> {
    match text::nth_part(did, ':', 1) {
        Some(m) => m,
        None => "unknown"@,
    }
}

/// Checks that `delegation_public` was attested by `primary`.
pub fn check_attestation(
    primary: Result<PublicKey, AgentCredsError>,
    delegation_public: &[u8],
    attestation: &[u8],
) -> (r: Result<(), AgentCredsError>)
    ensures
        unit_view(r) == attested_by(key_result(primary), delegation_public@, attestation@),
{
    match primary {
        Err(e) => Err(e),
        Ok(k) => k.verify(
            delegation_attestation_message(delegation_public).as_slice(),
            attestation,
        ),
    }
}

/// Verify that `delegation_public` was attested by the primary key of `did`: the key in
/// the identifier for a `did:key`, and otherwise the key of the document that `resolver`
/// gives.
///
/// # Errors
/// `ResolverRequired` if a non-`did:key` DID is presented without a resolver;
/// `DidResolutionFailed` if resolution or key extraction fails;
/// `InvalidDidSignature` if the attestation does not verify.
pub fn verify_delegation_attestation_resolved(
    did: &str,
    delegation_public: &[u8],
    attestation: &[u8],
    resolver: Option<&dyn DidResolver>,
) -> (r: Result<(), AgentCredsError>)
    ensures
        text::begins(did@, "did:key:"@) ==> unit_view(r) == attested_by(
            did_key_of(did@),
            delegation_public@,
            attestation@,
        ),
        !text::begins(did@, "did:key:"@) && resolver is None ==> unit_view(r) == Err::<
            (),
            ErrorView,
        >(ErrorView::ResolverRequired { method: method_name(did@) }),
        !text::begins(did@, "did:key:"@) && resolver is Some ==> exists|
            answer: Result<DidDocument, AgentCredsError>,
        |
            #[trigger] resolver->0.may_resolve(did@, answer) && unit_view(r) == attested_by(
                match answer {
                    Ok(doc) => document_key(did@, doc@),
                    Err(e) => Err(e@),
                },
                delegation_public@,
                attestation@,
            ),
{
    if text::starts_with(did, "did:key:") {
        return check_attestation(PublicKey::from_did_key(did), delegation_public, attestation);
    }
    match resolver {
        None => {
            let method = match text::split_nth(did, ':', 1) {
                Some(m) => m,
                None => "unknown".to_owned(),
            };
            Err(AgentCredsError::ResolverRequired { method })
        },
        Some(res) => {
            let answer = res.resolve(did);
            let ghost given = answer;
            let primary = match answer {
                Ok(doc) => public_key_from_did_document(did, &doc),
                Err(e) => Err(e),
            };
            proof {
                assert(res.may_resolve(did@, given));
            }
            check_attestation(primary, delegation_public, attestation)
        },
    }
}

// -- Agent identities -------------------------------------------------------------------

/// The DID an agent gets under a method: from its key for `did:key`, and from the method's
/// own parts otherwise, a web path trimmed of slashes and with the inner ones as colons.
pub open spec fn derived_did(m: DidMethod, k: KeyView) -> Seq<char> {
    match m {
        DidMethod::Key => did_key_text(k),
        DidMethod::Web { host, path } => match path {
            Some(p) => "did:web:"@ + host@ + (":"@ + text::replaced(
                text::trimmed(p@, '/'),
                '/',
                ':',
            )),
            None => "did:web:"@ + host@,
        },
        DidMethod::Cheqd { network, unique_id } => "did:cheqd:"@ + network_text(network) + ":"@
            + unique_id@,
        DidMethod::Indy { namespace, unique_id } => "did:indy:"@ + namespace@ + ":"@ + unique_id@,
    }
}

/// Derives the DID of a key under a method.
pub fn derive_did(method: &DidMethod, public_key: &PublicKey) -> (r: String)
    ensures
        r@ == derived_did(*method, public_key@),
{
    match method {
        DidMethod::Key => {
            let mut s = "did:key:".to_owned();
            s.append(public_key.to_multibase().as_str());
            s
        },
        DidMethod::Web { host, path } => {
            let mut s = "did:web:".to_owned();
            s.append(host.as_str());
            match path {
                Some(p) => {
                    let trimmed = text::trim_char(p.as_str(), '/');
                    let mut part = ":".to_owned();
                    part.append(text::replace_char(trimmed.as_str(), '/', ':').as_str());
                    s.append(part.as_str());
                },
                None => {},
            }
            s
        },
        DidMethod::Cheqd { network, unique_id } => method.to_string(),
        DidMethod::Indy { namespace, unique_id } => method.to_string(),
    }
}

/// What signing with a software key gives: a signature that the key's public half
/// verifies. An Ed25519 key always signs; P-256 signing may report an error.
pub open spec fn software_signs(
    k: KeyView,
    message: Seq<u8>,
    r: Result<Vec<u8>, AgentCredsError>,
) -> bool {
    match r {
        Ok(s) => key_verifies(k, message, s@) is Ok,
        Err(e) => k.algorithm is P256 && e@ is CryptoError,
    }
}

/// A complete agent identity: DID + key pair.
///
/// Holds private keys, which are wiped when it is dropped: use `did()` and `document()`
/// to extract the public components.
pub struct AgentIdentity {
    did: String,
    document: DidDocument,
    algorithm: KeyAlgorithm,
    signing_key_ed25519: Option<SecretBytes>,
    signing_key_p256: Option<SecretBytes>,
    delegation_key_ed25519: SecretBytes,
    delegation_public: Vec<u8>,
    delegation_attestation: Vec<u8>,
    public_key: PublicKey,
}

impl AgentIdentity {
    /// The agent's DID.
    pub closed spec fn did_text(&self) -> Seq<char> {
        self.did@
    }

    /// The agent's public key.
    pub closed spec fn key(&self) -> KeyView {
        self.public_key@
    }

    /// The agent's DID document.
    pub closed spec fn document_of(&self) -> DocumentView {
        self.document@
    }

    /// The secret half of the delegation subkey.
    pub closed spec fn delegation_secret(&self) -> Seq<u8> {
        crypto::secret_bytes(self.delegation_key_ed25519)
    }

    /// The public half of the delegation subkey.
    pub closed spec fn delegation_key(&self) -> Seq<u8> {
        self.delegation_public@
    }

    /// The primary key's signature over the delegation subkey.
    pub closed spec fn attestation(&self) -> Seq<u8> {
        self.delegation_attestation@
    }

    #[verifier::type_invariant]
    spec fn sound(&self) -> bool {
        &&& self.algorithm == self.public_key.algorithm
        &&& match self.algorithm {
            KeyAlgorithm::Ed25519 => {
                &&& self.signing_key_ed25519 is Some
                &&& crypto::secret_bytes(self.signing_key_ed25519->0).len() == 32
                &&& self.public_key.bytes@ == crypto::ed25519_public(
                    crypto::secret_bytes(self.signing_key_ed25519->0),
                )
                &&& self.public_key.bytes@.len() == 32
                &&& crypto::ed25519_key_decodes(self.public_key.bytes@) is Ok
            },
            KeyAlgorithm::P256 => {
                &&& self.signing_key_p256 is Some
                &&& crypto::p256_public(crypto::secret_bytes(self.signing_key_p256->0)) == Some(
                    self.public_key.bytes@,
                )
                &&& self.public_key.bytes@.len() == 33
                &&& crypto::p256_key_decodes(self.public_key.bytes@) is Ok
            },
        }
        &&& crypto::secret_bytes(self.delegation_key_ed25519).len() == 32
        &&& self.delegation_public@ == crypto::ed25519_public(
            crypto::secret_bytes(self.delegation_key_ed25519),
        )
        &&& self.delegation_public@.len() == 32
        &&& attested_by(
            Ok(self.public_key@),
            self.delegation_public@,
            self.delegation_attestation@,
        ) is Ok
    }

    /// Create a new agent identity with the given DID method and key algorithm
    /// (`Ed25519` where none is given).
    ///
    /// # Errors
    /// `CryptoError` if P-256 signing of the delegation subkey reports an error.
    pub fn create(method: DidMethod, algorithm: Option<KeyAlgorithm>) -> (r: Result<
        Self,
        AgentCredsError,
    >)
        ensures
            match r {
                Ok(id) => {
                    &&& id.key().algorithm == (match algorithm {
                        Some(a) => a,
                        None => KeyAlgorithm::Ed25519,
                    })
                    &&& id.did_text() == derived_did(method, id.key())
                    &&& exists|now: int|
                        id.document_of() == #[trigger] agent_document(
                            id.did_text(),
                            id.key(),
                            id.delegation_key(),
                            now,
                        )
                },
                Err(e) => algorithm == Some(KeyAlgorithm::P256) && e@ is CryptoError,
            },
    {
        let chosen = match algorithm {
            Some(a) => a,
            None => KeyAlgorithm::Ed25519,
        };
        match chosen {
            KeyAlgorithm::Ed25519 => Ok(
                Self::ed25519_from_parts(
                    method,
                    crypto::ed25519_generate(),
                    crypto::ed25519_generate(),
                    Timestamp::now(),
                ),
            ),
            KeyAlgorithm::P256 => Self::p256_from_parts(
                method,
                crypto::p256_generate(),
                crypto::ed25519_generate(),
                Timestamp::now(),
            ),
        }
    }

    /// The Ed25519 identity of a secret key and a delegation secret, created at `now`.
    pub(crate) fn ed25519_from_parts(
        method: DidMethod,
        secret: Vec<u8>,
        delegation_secret: Vec<u8>,
        now: Timestamp,
    ) -> (r: Self)
        requires
            secret@.len() == 32,
            delegation_secret@.len() == 32,
        ensures
            r.key() == (KeyView {
                algorithm: KeyAlgorithm::Ed25519,
                bytes: crypto::ed25519_public(secret@),
            }),
            r.delegation_secret() == delegation_secret@,
            r.did_text() == derived_did(method, r.key()),
            r.document_of() == agent_document(r.did_text(), r.key(), r.delegation_key(), now@),
    {
        let public_key = PublicKey {
            algorithm: KeyAlgorithm::Ed25519,
            bytes: crypto::ed25519_public_key(secret.as_slice()),
        };
        let delegation_public = crypto::ed25519_public_key(delegation_secret.as_slice());
        let attestation = crypto::ed25519_sign(
            secret.as_slice(),
            delegation_attestation_message(delegation_public.as_slice()).as_slice(),
        );
        let did = derive_did(&method, &public_key);
        let document = build_document(did.as_str(), &public_key, &delegation_public, now);
        AgentIdentity {
            did,
            document,
            algorithm: KeyAlgorithm::Ed25519,
            signing_key_ed25519: Some(SecretBytes::new(secret)),
            signing_key_p256: None,
            delegation_key_ed25519: SecretBytes::new(delegation_secret),
            delegation_public,
            delegation_attestation: attestation,
            public_key,
        }
    }

    /// The P-256 identity of a secret key and an Ed25519 delegation secret, created at
    /// `now`.
    pub(crate) fn p256_from_parts(
        method: DidMethod,
        secret: Vec<u8>,
        delegation_secret: Vec<u8>,
        now: Timestamp,
    ) -> (r: Result<Self, AgentCredsError>)
        requires
            crypto::p256_public(secret@) is Some,
            delegation_secret@.len() == 32,
        ensures
            match r {
                Ok(id) => {
                    &&& id.key() == (KeyView {
                        algorithm: KeyAlgorithm::P256,
                        bytes: crypto::p256_public(secret@)->0,
                    })
                    &&& id.delegation_secret() == delegation_secret@
                    &&& id.did_text() == derived_did(method, id.key())
                    &&& id.document_of() == agent_document(
                        id.did_text(),
                        id.key(),
                        id.delegation_key(),
                        now@,
                    )
                },
                Err(e) => e@ is CryptoError,
            },
    {
        let bytes = match crypto::p256_public_key(secret.as_slice()) {
            Some(b) => b,
            None => {
                return Err(
                    AgentCredsError::CryptoError { reason: "P-256 key not initialized".to_owned() },
                );
            },
        };
        let public_key = PublicKey { algorithm: KeyAlgorithm::P256, bytes };
        let delegation_public = crypto::ed25519_public_key(delegation_secret.as_slice());
        let attestation = match crypto::p256_sign(
            secret.as_slice(),
            delegation_attestation_message(delegation_public.as_slice()).as_slice(),
        ) {
            Ok(s) => s,
            Err(reason) => {
                return Err(AgentCredsError::CryptoError { reason });
            },
        };
        let did = derive_did(&method, &public_key);
        let document = build_document(did.as_str(), &public_key, &delegation_public, now);
        Ok(
            AgentIdentity {
                did,
                document,
                algorithm: KeyAlgorithm::P256,
                signing_key_ed25519: None,
                signing_key_p256: Some(SecretBytes::new(secret)),
                delegation_key_ed25519: SecretBytes::new(delegation_secret),
                delegation_public,
                delegation_attestation: attestation,
                public_key,
            },
        )
    }

    /// The agent's DID string (e.g. `did:key:z6Mk...`).
    pub fn did(&self) -> (r: &str)
        ensures
            r@ == self.did_text(),
    {
        self.did.as_str()
    }

    /// The agent's public DID document.
    pub fn document(&self) -> (r: &DidDocument)
        ensures
            r@ == self.document_of(),
    {
        &self.document
    }

    /// The agent's public key.
    pub fn public_key(&self) -> (r: &PublicKey)
        ensures
            r@ == self.key(),
            r@.bytes.len() == key_length(r@.algorithm),
    {
        proof {
            use_type_invariant(self);
        }
        &self.public_key
    }

    /// The key algorithm in use.
    pub fn algorithm(&self) -> (r: KeyAlgorithm)
        ensures
            r == self.key().algorithm,
    {
        proof {
            use_type_invariant(self);
        }
        self.algorithm
    }

    /// Sign arbitrary bytes with this identity's private key.
    /// Returns raw signature bytes (Ed25519: 64 bytes; P-256: DER).
    ///
    /// # Errors
    /// `CryptoError` if P-256 signing reports an error. Ed25519 signing does not fail.
    pub fn sign(&self, message: &[u8]) -> (r: Result<Vec<u8>, AgentCredsError>)
        ensures
            software_signs(self.key(), message@, r),
            self.key().algorithm is Ed25519 ==> r is Ok,
    {
        proof {
            use_type_invariant(self);
        }
        match self.algorithm {
            KeyAlgorithm::Ed25519 => match &self.signing_key_ed25519 {
                Some(k) => Ok(crypto::ed25519_sign(k.as_slice(), message)),
                None => Err(key_material("Ed25519 key not initialized".to_owned())),
            },
            KeyAlgorithm::P256 => match &self.signing_key_p256 {
                Some(k) => match crypto::p256_sign(k.as_slice(), message) {
                    Ok(s) => Ok(s),
                    Err(reason) => Err(AgentCredsError::CryptoError { reason }),
                },
                None => Err(key_material("P-256 key not initialized".to_owned())),
            },
        }
    }

    /// Verify a signature produced by `sign()` over `message`.
    pub fn verify(&self, message: &[u8], signature_bytes: &[u8]) -> (r: Result<
        (),
        AgentCredsError,
    >)
        ensures
            unit_view(r) == key_verifies(self.key(), message@, signature_bytes@),
    {
        self.public_key.verify(message, signature_bytes)
    }

    /// Raw Ed25519 delegation secret-key bytes.
    pub(crate) fn delegation_secret_bytes(&self) -> (r: &[u8])
        ensures
            r@ == self.delegation_secret(),
            r@.len() == 32,
            self.delegation_key() == crypto::ed25519_public(r@),
    {
        proof {
            use_type_invariant(self);
        }
        self.delegation_key_ed25519.as_slice()
    }

    /// Public half of this agent's Ed25519 delegation subkey (32 bytes).
    pub fn delegation_public_key(&self) -> (r: &[u8])
        ensures
            r@ == self.delegation_key(),
            r@.len() == 32,
    {
        proof {
            use_type_invariant(self);
        }
        self.delegation_public.as_slice()
    }

    /// The primary-key attestation binding this agent's delegation subkey to its DID.
    pub fn delegation_attestation(&self) -> (r: &[u8])
        ensures
            r@ == self.attestation(),
            attested_by(Ok(self.key()), self.delegation_key(), r@) is Ok,
    {
        proof {
            use_type_invariant(self);
        }
        self.delegation_attestation.as_slice()
    }

    /// A content-addressed fingerprint of this identity: the SHA-256, in hexadecimal, of
    /// its DID followed by its public key.
    pub fn fingerprint(&self) -> (r: String)
        ensures
            r@ == crypto::hex_text(
                crypto::sha256_digest(encoding::utf8(self.did_text()) + self.key().bytes),
            ),
    {
        let mut m: Vec<u8> = Vec::new();
        encoding::put_bytes(&mut m, self.did.as_str().as_bytes());
        encoding::put_bytes(&mut m, self.public_key.bytes.as_slice());
        assert(m@ =~= encoding::utf8(self.did_text()) + self.key().bytes);
        crypto::hex_encode(crypto::sha256(m.as_slice()).as_slice())
    }

    /// A text for debugging that names the DID and the algorithm and no key.
    pub fn debug_text(&self) -> (r: String)
        ensures
            r@ == "AgentIdentity { did: "@ + text::quoted_text(self.did_text()) + ", algorithm: "@
                + algorithm_text(self.key().algorithm) + ", signing_key: \"[REDACTED]\" }"@,
    {
        proof {
            use_type_invariant(self);
        }
        let mut s = "AgentIdentity { did: ".to_owned();
        s.append(text::quoted(self.did.as_str()).as_str());
        s.append(", algorithm: ");
        match self.algorithm {
            KeyAlgorithm::Ed25519 => s.append("Ed25519"),
            KeyAlgorithm::P256 => s.append("P256"),
        }
        s.append(", signing_key: \"[REDACTED]\" }");
        s
    }
}

// -- Anchor signers -----------------------------------------------------------------------

/// A pluggable signing backend for a [`TrustAnchor`]: in software ([`SoftwareSigner`]), or
/// in an external HSM / KMS via a host-provided implementation.
pub trait AnchorSigner: Send + Sync {
    /// The public half of the signing key.
    open spec fn key(&self) -> KeyView {
        arbitrary()
    }

    /// Whether a result is one that this signer may give for a message. A signer that
    /// asks an external service may give many.
    open spec fn may_sign(&self, message: Seq<u8>, r: Result<Vec<u8>, AgentCredsError>) -> bool {
        true
    }

    /// The signing key's algorithm.
    fn algorithm(&self) -> (r: KeyAlgorithm)
        ensures
            r == self.key().algorithm,
    ;

    /// The public key - used to derive the DID and to verify signatures.
    fn public_key(&self) -> (r: &PublicKey)
        ensures
            r@ == self.key(),
    ;

    /// Sign `message`, returning raw signature bytes (Ed25519: 64-byte raw; P-256: DER).
    ///
    /// # Errors
    /// Implementation-defined - e.g. an HSM/KMS transport or authorization failure.
    fn sign(&self, message: &[u8]) -> (r: Result<Vec<u8>, AgentCredsError>)
        ensures
            self.may_sign(message@, r),
    ;
}

/// The default in-process signer: the private key lives in software and is wiped on drop.
pub struct SoftwareSigner {
    identity: AgentIdentity,
}

impl SoftwareSigner {
    /// Generate a fresh `did:key` software signing key.
    ///
    /// # Errors
    /// Propagates key-generation failure.
    pub fn generate(algorithm: Option<KeyAlgorithm>) -> (r: Result<Self, AgentCredsError>)
        ensures
            match r {
                Ok(s) => s.key().algorithm == (match algorithm {
                    Some(a) => a,
                    None => KeyAlgorithm::Ed25519,
                }),
                Err(e) => algorithm == Some(KeyAlgorithm::P256) && e@ is CryptoError,
            },
    {
        match AgentIdentity::create(DidMethod::Key, algorithm) {
            Ok(identity) => Ok(SoftwareSigner { identity }),
            Err(e) => Err(e),
        }
    }

    /// Wrap an existing identity's key as a software signer.
    pub fn from_identity(identity: AgentIdentity) -> (r: Self)
        ensures
            r.key() == identity.key(),
    {
        SoftwareSigner { identity }
    }
}

impl AnchorSigner for SoftwareSigner {
    closed spec fn key(&self) -> KeyView {
        self.identity.key()
    }

    open spec fn may_sign(&self, message: Seq<u8>, r: Result<Vec<u8>, AgentCredsError>) -> bool {
        software_signs(self.key(), message, r)
    }

    fn algorithm(&self) -> (r: KeyAlgorithm) {
        self.identity.algorithm()
    }

    fn public_key(&self) -> (r: &PublicKey) {
        self.identity.public_key()
    }

    fn sign(&self, message: &[u8]) -> (r: Result<Vec<u8>, AgentCredsError>) {
        self.identity.sign(message)
    }
}

/// A signer that holds only a public key, for a verify-only anchor.
struct PublicOnlySigner {
    public_key: PublicKey,
}

/// The error of signing without a private key.
pub open spec fn cannot_sign() -> ErrorView {
    ErrorView::CryptoError {
        reason: "verify-only trust anchor has no private key and cannot sign"@,
    }
}

impl AnchorSigner for PublicOnlySigner {
    closed spec fn key(&self) -> KeyView {
        self.public_key@
    }

    open spec fn may_sign(&self, message: Seq<u8>, r: Result<Vec<u8>, AgentCredsError>) -> bool {
        r is Err && r->Err_0@ == cannot_sign()
    }

    fn algorithm(&self) -> (r: KeyAlgorithm) {
        self.public_key.algorithm
    }

    fn public_key(&self) -> (r: &PublicKey) {
        &self.public_key
    }

    fn sign(&self, _message: &[u8]) -> (r: Result<Vec<u8>, AgentCredsError>) {
        Err(
            AgentCredsError::CryptoError {
                reason: "verify-only trust anchor has no private key and cannot sign".to_owned(),
            },
        )
    }
}

// -- Trust anchors -------------------------------------------------------------------------

/// A signer that the host provides.
struct HostSigner<S> {
    signer: S,
}

enum AnchorBackend {
    Software(SoftwareSigner),
    PublicOnly(PublicOnlySigner),
    External(HostSigner<Box<dyn AnchorSigner>>),
}

/// An organizational trust anchor - the root of all credential issuance.
pub struct TrustAnchor {
    signer: AnchorBackend,
    public_key: PublicKey,
    did: String,
    document: DidDocument,
}

impl TrustAnchor {
    /// The anchor's DID.
    pub closed spec fn did_text(&self) -> Seq<char> {
        self.did@
    }

    /// The anchor's public key.
    pub closed spec fn key(&self) -> KeyView {
        self.public_key@
    }

    /// The anchor's DID document.
    pub closed spec fn document_of(&self) -> DocumentView {
        self.document@
    }

    /// Whether the private key is held in software by the anchor itself.
    pub closed spec fn in_software(&self) -> bool {
        self.signer is Software
    }

    /// Whether the anchor has no private key.
    pub closed spec fn verify_only(&self) -> bool {
        self.signer is PublicOnly
    }

    /// Whether a result is one that signing a message with this anchor may give.
    pub closed spec fn may_sign(
        &self,
        message: Seq<u8>,
        r: Result<Vec<u8>, AgentCredsError>,
    ) -> bool {
        match self.signer {
            AnchorBackend::Software(s) => s.may_sign(message, r),
            AnchorBackend::PublicOnly(s) => s.may_sign(message, r),
            AnchorBackend::External(s) => s.signer.may_sign(message, r),
        }
    }

    #[verifier::type_invariant]
    spec fn sound(&self) -> bool {
        match self.signer {
            AnchorBackend::Software(s) => s.key() == self.public_key@,
            AnchorBackend::PublicOnly(s) => s.key() == self.public_key@,
            AnchorBackend::External(s) => true,
        }
    }

    /// Create a new software-backed trust anchor with the specified DID method.
    ///
    /// # Errors
    /// `ResolverRequired` for the ledger-backed methods `did:cheqd` and `did:indy` without
    /// a resolver; `CryptoError` as [`AgentIdentity::create`].
    pub fn create(
        method: DidMethod,
        algorithm: Option<KeyAlgorithm>,
        resolver: Option<&dyn DidResolver>,
    ) -> (r: Result<Self, AgentCredsError>)
        ensures
            match r {
                Ok(a) => {
                    &&& !((method is Cheqd || method is Indy) && resolver is None)
                    &&& a.in_software()
                    &&& a.key().algorithm == (match algorithm {
                        Some(x) => x,
                        None => KeyAlgorithm::Ed25519,
                    })
                    &&& a.did_text() == derived_did(method, a.key())
                    &&& exists|delegation_public: Seq<u8>, now: int|
                        a.document_of() == #[trigger] agent_document(
                            a.did_text(),
                            a.key(),
                            delegation_public,
                            now,
                        )
                },
                Err(e) => if (method is Cheqd || method is Indy) && resolver is None {
                    e@ == (ErrorView::ResolverRequired { method: method_text(method) })
                } else {
                    algorithm == Some(KeyAlgorithm::P256) && e@ is CryptoError
                },
            },
    {
        let ledger = match &method {
            DidMethod::Cheqd { network, unique_id } => true,
            DidMethod::Indy { namespace, unique_id } => true,
            _ => false,
        };
        if ledger && resolver.is_none() {
            return Err(AgentCredsError::ResolverRequired { method: method.to_string() });
        }
        match AgentIdentity::create(method, algorithm) {
            Ok(identity) => Ok(TrustAnchor::from_identity(identity)),
            Err(e) => Err(e),
        }
    }

    /// Convenience constructor for a `did:key` / Ed25519 trust anchor.
    pub fn generate() -> (r: Result<Self, AgentCredsError>)
        ensures
            r is Ok,
            r->Ok_0.in_software(),
            r->Ok_0.key().algorithm is Ed25519,
            r->Ok_0.did_text() == did_key_text(r->Ok_0.key()),
            exists|delegation_public: Seq<u8>, now: int|
                r->Ok_0.document_of() == #[trigger] agent_document(
                    r->Ok_0.did_text(),
                    r->Ok_0.key(),
                    delegation_public,
                    now,
                ),
    {
        TrustAnchor::create(DidMethod::Key, Some(KeyAlgorithm::Ed25519), None)
    }

    /// Create a software-backed trust anchor from an existing identity.
    pub fn from_identity(identity: AgentIdentity) -> (r: Self)
        ensures
            r.in_software(),
            r.key() == identity.key(),
            r.did_text() == identity.did_text(),
            r.document_of() == identity.document_of(),
    {
        let did = identity.did().to_owned();
        let document = identity.document().clone();
        let public_key = identity.public_key().clone();
        TrustAnchor {
            signer: AnchorBackend::Software(SoftwareSigner::from_identity(identity)),
            public_key,
            did,
            document,
        }
    }

    /// Create a trust anchor from a custom [`AnchorSigner`] - e.g. a key held in an HSM or
    /// cloud KMS. The DID is `did:key`, derived from the signer's public key, which is
    /// read once; signing is delegated to the signer.
    pub fn from_signer(signer: Box<dyn AnchorSigner>) -> (r: Self)
        ensures
            r.key() == signer.key(),
            r.did_text() == did_key_text(signer.key()),
            exists|now: int|
                r.document_of() == #[trigger] anchor_document(r.did_text(), r.key(), now),
            !r.in_software(),
            !r.verify_only(),
            forall|m: Seq<u8>, x: Result<Vec<u8>, AgentCredsError>|
                #[trigger] r.may_sign(m, x) == signer.may_sign(m, x),
    {
        let public_key = signer.public_key().clone();
        let mut did = "did:key:".to_owned();
        did.append(public_key.to_multibase().as_str());
        let now = Timestamp::now();
        let document = build_anchor_document(did.as_str(), &public_key, now);
        let ghost given = signer;
        let held = HostSigner { signer };
        assert(held.signer == given);
        let backend = AnchorBackend::External(held);
        let r = TrustAnchor { signer: backend, public_key, did, document };
        assert(r.document_of() == anchor_document(r.did_text(), r.key(), now@));
        r
    }

    /// Construct a **verify-only** anchor from a `did:key` (no private key).
    ///
    /// # Errors
    /// If `did` is not a parseable `did:key`.
    pub fn from_did_key(did: &str) -> (r: Result<Self, AgentCredsError>)
        ensures
            match (r, did_key_of(did@)) {
                (Ok(a), Ok(k)) => {
                    &&& a.key() == k
                    &&& a.did_text() == did@
                    &&& a.verify_only()
                    &&& exists|now: int|
                        a.document_of() == #[trigger] anchor_document(did@, k, now)
                },
                (Err(e), Err(v)) => e@ == v,
                _ => false,
            },
    {
        match PublicKey::from_did_key(did) {
            Ok(public_key) => {
                let document = build_anchor_document(did, &public_key, Timestamp::now());
                let signer = AnchorBackend::PublicOnly(
                    PublicOnlySigner { public_key: public_key.clone() },
                );
                Ok(TrustAnchor { signer, public_key, did: did.to_owned(), document })
            },
            Err(e) => Err(e),
        }
    }

    /// The DID of this trust anchor.
    pub fn did(&self) -> (r: &str)
        ensures
            r@ == self.did_text(),
    {
        self.did.as_str()
    }

    /// The public key of this trust anchor.
    pub fn public_key(&self) -> (r: &PublicKey)
        ensures
            r@ == self.key(),
    {
        &self.public_key
    }

    /// The trust anchor's public DID document.
    pub fn document(&self) -> (r: &DidDocument)
        ensures
            r@ == self.document_of(),
    {
        &self.document
    }

    /// The key algorithm used by this trust anchor.
    pub fn algorithm(&self) -> (r: KeyAlgorithm)
        ensures
            r == self.key().algorithm,
    {
        self.public_key.algorithm
    }

    /// Sign a payload on behalf of the trust anchor (delegated to the signer).
    ///
    /// # Errors
    /// `CryptoError` where the anchor is verify-only or P-256 signing reports an error;
    /// whatever an external signer returns.
    pub fn sign(&self, message: &[u8]) -> (r: Result<Vec<u8>, AgentCredsError>)
        ensures
            self.may_sign(message@, r),
            self.in_software() ==> software_signs(self.key(), message@, r),
            self.in_software() && self.key().algorithm is Ed25519 ==> r is Ok,
            self.verify_only() ==> r is Err && r->Err_0@ == cannot_sign(),
    {
        proof {
            use_type_invariant(self);
        }
        match &self.signer {
            AnchorBackend::Software(s) => s.sign(message),
            AnchorBackend::PublicOnly(s) => s.sign(message),
            AnchorBackend::External(s) => s.signer.sign(message),
        }
    }

    /// Verify a signature against this trust anchor's public key.
    pub fn verify_signature(&self, message: &[u8], sig: &[u8]) -> (r: Result<(), AgentCredsError>)
        ensures
            unit_view(r) == key_verifies(self.key(), message@, sig@),
    {
        self.public_key.verify(message, sig)
    }

    /// A text for debugging that names the DID and no key.
    pub fn debug_text(&self) -> (r: String)
        ensures
            r@ == "TrustAnchor { did: "@ + text::quoted_text(self.did_text())
                + ", signing_key: \"[REDACTED]\" }"@,
    {
        let mut s = "TrustAnchor { did: ".to_owned();
        s.append(text::quoted(self.did.as_str()).as_str());
        s.append(", signing_key: \"[REDACTED]\" }");
        s
    }
}

// -- What verifying and resolving show ------------------------------------------------------------

/// A signature is accepted under a key only where the scheme of the key's algorithm accepts it for
/// that very message, under a key that decodes; and wherever the scheme does, for a signature of the
/// right form.
pub proof fn an_accepted_signature_is_the_schemes(k: KeyView, message: Seq<u8>, signature: Seq<u8>)
    ensures
        k.algorithm is Ed25519 ==> (key_verifies(k, message, signature) is Ok <==> {
            &&& k.bytes.len() == 32
            &&& signature.len() == 64
            &&& crypto::ed25519_key_decodes(k.bytes) is Ok
            &&& crypto::ed25519_verifies(k.bytes, message, signature) is Ok
        }),
        k.algorithm is P256 ==> (key_verifies(k, message, signature) is Ok <==> {
            &&& crypto::p256_key_decodes(k.bytes) is Ok
            &&& crypto::p256_signature_decodes(signature) is Ok
            &&& crypto::p256_verifies(k.bytes, message, signature) is Ok
        }),
{
}

/// A delegation key is attested where the primary key is known and has signed the attestation bytes
/// of that delegation key, and nowhere else.
pub proof fn an_attestation_is_the_primary_keys(
    primary: Result<KeyView, ErrorView>,
    delegation_public: Seq<u8>,
    attestation: Seq<u8>,
)
    ensures
        attested_by(primary, delegation_public, attestation) is Ok <==> primary is Ok && key_verifies(
            primary->Ok_0,
            attestation_bytes(delegation_public),
            attestation,
        ) is Ok,
        primary is Err ==> attested_by(primary, delegation_public, attestation) == Err::<
            (),
            ErrorView,
        >(primary->Err_0),
{
}

/// Attestation bytes stand for one delegation key.
pub proof fn attestation_bytes_stand_for_one_key(a: Seq<u8>, b: Seq<u8>)
    requires
        attestation_bytes(a) == attestation_bytes(b),
    ensures
        a == b,
{
    let d = encoding::utf8("agentcreds-delegation-key-v1"@);
    encoding::lemma_split(d, d, a, b);
}

/// A `did:key` stands for one key: keys of the right length with one `did:key` are the same.
pub proof fn a_did_key_stands_for_one_key(a: KeyView, b: KeyView)
    requires
        a.bytes.len() == key_length(a.algorithm),
        b.bytes.len() == key_length(b.algorithm),
        did_key_text(a) == did_key_text(b),
    ensures
        a == b,
{
    did_key_round_trip(a);
    did_key_round_trip(b);
}

/// A key is read only from a `did:key` that holds one: the text begins with `did:key:z`, and the bytes
/// behind it are the key's, of the length of its algorithm, behind the algorithm's own prefix.
pub proof fn a_read_key_is_the_one_that_the_did_holds(did: Seq<char>)
    ensures
        did_key_of(did) is Ok ==> {
            let k = did_key_of(did)->Ok_0;
            let encoded = did.skip(9);
            &&& text::begins(did, "did:key:"@)
            &&& did.len() > 8 && did[8] == 'z'
            &&& base58::is_base58(encoded)
            &&& base58::base58_bytes(encoded) == multicodec(k.algorithm) + k.bytes
            &&& k.bytes.len() == key_length(k.algorithm)
        },
        did_key_of(did) is Err ==> did_key_of(did)->Err_0 is InvalidKeyMaterial,
{
    reveal_strlit("did:key:");
    reveal_strlit("z");
    if did_key_of(did) is Ok {
        let k = did_key_of(did)->Ok_0;
        let body = did.skip("did:key:"@.len() as int);
        let encoded = body.skip(1);
        assert(encoded =~= did.skip(9));
        assert(body.take(1)[0] == "z"@[0]);
        assert(body[0] == did[8]);
        let b = base58::base58_bytes(encoded);
        assert(b =~= b.take(2) + b.skip(2));
    }
}

/// The two algorithms are told apart by their prefixes, their lengths and their method types.
pub proof fn algorithms_are_told_apart(a: KeyAlgorithm, b: KeyAlgorithm)
    ensures
        multicodec(a) == multicodec(b) ==> a == b,
        multicodec(a).len() == 2,
        key_length(a) == key_length(b) ==> a == b,
        method_type(a) == method_type(b) ==> a == b,
        type_algorithm(method_type(a)) == Some(a),
        algorithm_text(a) == algorithm_text(b) ==> a == b,
{
    assert(multicodec(KeyAlgorithm::Ed25519)[0] != multicodec(KeyAlgorithm::P256)[0]);
    reveal_strlit("Ed25519VerificationKey2020");
    reveal_strlit("EcdsaSecp256r1VerificationKey2019");
    reveal_strlit("Ed25519");
    reveal_strlit("P256");
    assert("Ed25519VerificationKey2020"@.len() != "EcdsaSecp256r1VerificationKey2019"@.len());
    assert("Ed25519"@.len() != "P256"@.len());
}

/// The document of an agent gives back the agent's primary key, and lists its delegation key for
/// delegation; the document of an anchor gives back the anchor's key. Each names its own DID.
pub proof fn a_document_gives_its_key_back(
    did: Seq<char>,
    k: KeyView,
    delegation_public: Seq<u8>,
    now: int,
)
    ensures
        document_key(did, agent_document(did, k, delegation_public, now)) == Ok::<
            KeyView,
            ErrorView,
        >(k),
        document_key(did, anchor_document(did, k, now)) == Ok::<KeyView, ErrorView>(k),
        agent_document(did, k, delegation_public, now).id == did,
        anchor_document(did, k, now).id == did,
        ({
            let doc = agent_document(did, k, delegation_public, now);
            &&& doc.verification_method.len() == 2
            &&& doc.verification_method[1].public_key_multibase == multibase_text(
                KeyView { algorithm: KeyAlgorithm::Ed25519, bytes: delegation_public },
            )
            &&& doc.capability_delegation == seq![doc.verification_method[1].id]
            &&& doc.authentication == seq![doc.verification_method[0].id]
            &&& doc.assertion_method == seq![doc.verification_method[0].id]
            &&& doc.verification_method[0].controller == did
            &&& doc.verification_method[1].controller == did
            &&& doc.verification_method[0].id != doc.verification_method[1].id
        }),
        anchor_document(did, k, now).verification_method.len() == 1,
{
    document_key_round_trip(did, k, agent_document(did, k, delegation_public, now));
    document_key_round_trip(did, k, anchor_document(did, k, now));
    reveal_strlit("#key-1");
    reveal_strlit("#deleg-1");
    let doc = agent_document(did, k, delegation_public, now);
    assert(doc.verification_method[0].id.len() == did.len() + 6);
    assert(doc.verification_method[1].id.len() == did.len() + 8);
}

/// A document's key is that of its first verification method: it is read exactly where there is one,
/// it is Base58 multibase, of a known type and with that type's prefix.
pub proof fn a_document_key_is_its_first_methods(did: Seq<char>, doc: DocumentView)
    ensures
        document_key(did, doc) is Ok ==> {
            let k = document_key(did, doc)->Ok_0;
            let vm = doc.verification_method[0];
            &&& doc.verification_method.len() > 0
            &&& registry::multibase_bytes(vm.public_key_multibase) is Ok
            &&& registry::multibase_bytes(vm.public_key_multibase)->Ok_0 == multicodec(k.algorithm)
                + k.bytes
            &&& vm.vm_type == method_type(k.algorithm)
        },
        document_key(did, doc) is Err ==> document_key(did, doc)->Err_0 is DidResolutionFailed,
        doc.verification_method.len() == 0 ==> document_key(did, doc) is Err,
{
    if document_key(did, doc) is Ok {
        let vm = doc.verification_method[0];
        let b = registry::multibase_bytes(vm.public_key_multibase)->Ok_0;
        assert(b =~= b.take(2) + b.skip(2));
    }
}

/// What a software key signs verifies under its public key.
pub proof fn what_software_signs_verifies(
    k: KeyView,
    message: Seq<u8>,
    r: Result<Vec<u8>, AgentCredsError>,
)
    requires
        software_signs(k, message, r),
    ensures
        r is Ok ==> key_verifies(k, message, r->Ok_0@) is Ok,
        k.algorithm is Ed25519 ==> r is Ok,
{
}

/// The DID of each method begins with the method's own prefix and holds what names the identity: the
/// key, the host and the path's segments, or the network or namespace and the identifier.
pub proof fn a_derived_did_holds_what_names_it(m: DidMethod, k: KeyView)
    ensures
        m is Key ==> derived_did(m, k) == did_key_text(k),
        m matches DidMethod::Web { host, path } ==> text::begins(
            derived_did(m, k),
            "did:web:"@ + host@,
        ),
        m matches DidMethod::Web { host, path } ==> (path is None ==> derived_did(m, k) == "did:web:"@
            + host@),
        m matches DidMethod::Web { host, path } ==> (path matches Some(p) ==> derived_did(m, k).skip(
            host@.len() as int + 9,
        ) == text::replaced(text::trimmed(p@, '/'), '/', ':')),
        m matches DidMethod::Cheqd { network, unique_id } ==> derived_did(m, k) == "did:cheqd:"@ + (
        match network {
            CheqdNetwork::Mainnet => "mainnet"@,
            CheqdNetwork::Testnet => "testnet"@,
        }) + ":"@ + unique_id@,
        m matches DidMethod::Indy { namespace, unique_id } ==> derived_did(m, k) == "did:indy:"@
            + namespace@ + ":"@ + unique_id@,
{
    reveal_strlit("did:web:");
    reveal_strlit(":");
    match m {
        DidMethod::Web { host, path } => {
            let front = "did:web:"@ + host@;
            match path {
                Some(p) => {
                    let rest = ":"@ + text::replaced(text::trimmed(p@, '/'), '/', ':');
                    assert((front + rest).take(front.len() as int) =~= front);
                    assert((front + rest).skip(host@.len() as int + 9) =~= text::replaced(
                        text::trimmed(p@, '/'),
                        '/',
                        ':',
                    ));
                },
                None => {
                    assert(front.take(front.len() as int) =~= front);
                },
            }
        },
        _ => {},
    }
}

/// The method of a DID is named between its first two colons.
pub proof fn a_did_says_its_method(method: Seq<char>, rest: Seq<char>)
    requires
        !method.contains(':'),
    ensures
        method_name("did:"@ + method + ":"@ + rest) == method,
{
    reveal_strlit("did:");
    reveal_strlit(":");
    let s = "did:"@ + method + ":"@ + rest;
    let front = seq!['d', 'i', 'd'];
    let tail = method.push(':') + rest;
    assert(s =~= front.push(':') + tail);
    if front.contains(':') {
        let i = choose|i: int| 0 <= i < front.len() && front[i] == ':';
    }
    text::a_text_is_parted_at_its_separators(front, ':', tail, 0);
    text::a_text_is_parted_at_its_separators(method, ':', rest, 0);
}

/// The text of a method names it: its prefix, and what tells identities of it apart.
pub proof fn a_method_text_names_the_method(m: DidMethod)
    ensures
        m is Key ==> method_text(m) == "did:key"@,
        m matches DidMethod::Web { host, path } ==> text::begins(method_text(m), "did:web:"@ + host@),
        m matches DidMethod::Cheqd { network, unique_id } ==> text::begins(
            method_text(m),
            "did:cheqd:"@,
        ) && text::begins(
            method_text(m),
            "did:cheqd:"@ + network_text(network) + ":"@ + unique_id@,
        ),
        m matches DidMethod::Indy { namespace, unique_id } ==> method_text(m) == "did:indy:"@
            + namespace@ + ":"@ + unique_id@,
        network_text(CheqdNetwork::Mainnet) == "mainnet"@,
        network_text(CheqdNetwork::Testnet) == "testnet"@,
{
    let t = method_text(m);
    match m {
        DidMethod::Web { host, path } => {
            let p = "did:web:"@ + host@;
            assert(t.take(p.len() as int) =~= p);
        },
        DidMethod::Cheqd { network, unique_id } => {
            let p = "did:cheqd:"@;
            assert(t.take(p.len() as int) =~= p);
            assert(t.take(t.len() as int) =~= t);
        },
        _ => {},
    }
}

} // verus!
