//! Configuration: built from defaults, overridden by environment variables, or constructed
//! directly.
//!
//! Each variable corresponds to one setting. An unset variable, or one with a value that is
//! not recognised, leaves the default in place:
//!
//! | Variable                 | Default         | Values                                      |
//! |--------------------------|-----------------|---------------------------------------------|
//! | `AC_DID_METHOD`          | `key`           | `key`, `web`, `cheqd`, `indy`               |
//! | `AC_KEY_ALGORITHM`       | `ed25519`       | `ed25519`, `p256`                           |
//! | `AC_WEB_HOST`            | -               | DNS host, e.g. `example.com`                |
//! | `AC_WEB_PATH`            | -               | Optional path, e.g. `users/alice`           |
//! | `AC_CHEQD_NETWORK`       | `testnet`       | `mainnet`, `testnet`                        |
//! | `AC_INDY_NAMESPACE`      | -               | Ledger namespace, e.g. `sovrin:main`        |
//! | `AC_DELEGATION_MAX_DEPTH`| `3`             | u32                                         |
//! | `AC_DELEGATION_TTL_SECS` | `3600`          | u64 (seconds)                               |
//! | `AC_DELEGATION_MAX_TTL`  | `86400`         | u64 (seconds)                               |
//! | `AC_TRUST_MIN_LEVEL`     | `self_asserted` | `unverified`, `self_asserted`, `verified`, `authoritative` |
//! | `AC_SIGNER_BACKEND`      | `software`      | `software`, `aws_kms`, `gcp_kms`, `azure_key_vault`, `pkcs11` |
//! | `AC_SIGNER_KEY_ID`       | -               | Backend key identifier                      |
//! | `AC_SIGNER_REGION`       | -               | Cloud region                                |

use vstd::prelude::*;
use vstd::string::*;
use crate::did::{
    AnchorSigner, CheqdNetwork, DidMethod, DidMethodView, KeyAlgorithm, SoftwareSigner,
};
use crate::error::{AgentCredsError, ErrorView};
use crate::registry::TrustLevel;
use crate::text;

verus! {

// -- Names in the configuration ------------------------------------------------------------------------

/// Selects a DID method.
#[derive(Debug, Clone, Copy, PartialEq, Eq, Structural)]
pub enum DidMethodKind {
    /// `did:key` - ephemeral, self-contained (default).
    Key,
    /// `did:web` - requires `web_host`.
    Web,
    /// `did:cheqd` - the network defaults to testnet.
    Cheqd,
    /// `did:indy` - requires `indy_namespace`.
    Indy,
}

impl Default for DidMethodKind {
    fn default() -> (r: Self)
        ensures
            r == DidMethodKind::Key,
    {
        DidMethodKind::Key
    }
}

/// What a name selects, whatever the case of its letters.
pub open spec fn method_named(s: Seq<char>) -> Option<DidMethodKind> {
    if text::same_letters(s, "key"@) {
        Some(DidMethodKind::Key)
    } else if text::same_letters(s, "web"@) {
        Some(DidMethodKind::Web)
    } else if text::same_letters(s, "cheqd"@) {
        Some(DidMethodKind::Cheqd)
    } else if text::same_letters(s, "indy"@) {
        Some(DidMethodKind::Indy)
    } else {
        None
    }
}

impl DidMethodKind {
    /// What a name selects, whatever the case of its letters.
    #[must_use]
    pub fn from_str(s: &str) -> (r: Option<Self>)
        ensures
            r == method_named(s@),
    {
        if text::eq_ignore_case(s, "key") {
            Some(DidMethodKind::Key)
        } else if text::eq_ignore_case(s, "web") {
            Some(DidMethodKind::Web)
        } else if text::eq_ignore_case(s, "cheqd") {
            Some(DidMethodKind::Cheqd)
        } else if text::eq_ignore_case(s, "indy") {
            Some(DidMethodKind::Indy)
        } else {
            None
        }
    }
}

/// Selects a key algorithm.
#[derive(Debug, Clone, Copy, PartialEq, Eq, Structural)]
pub enum KeyAlgorithmKind {
    /// Ed25519 - fast, small signatures (default).
    Ed25519,
    /// P-256 (ECDSA) - FIPS-approved for enterprise deployments.
    P256,
}

impl Default for KeyAlgorithmKind {
    fn default() -> (r: Self)
        ensures
            r == KeyAlgorithmKind::Ed25519,
    {
        KeyAlgorithmKind::Ed25519
    }
}

/// What a name selects, whatever the case of its letters.
pub open spec fn algorithm_named(s: Seq<char>) -> Option<KeyAlgorithmKind> {
    if text::same_letters(s, "ed25519"@) {
        Some(KeyAlgorithmKind::Ed25519)
    } else if text::same_letters(s, "p256"@) || text::same_letters(s, "p-256"@) {
        Some(KeyAlgorithmKind::P256)
    } else {
        None
    }
}

impl KeyAlgorithmKind {
    /// What a name selects, whatever the case of its letters.
    #[must_use]
    pub fn from_str(s: &str) -> (r: Option<Self>)
        ensures
            r == algorithm_named(s@),
    {
        if text::eq_ignore_case(s, "ed25519") {
            Some(KeyAlgorithmKind::Ed25519)
        } else if text::eq_ignore_case(s, "p256") || text::eq_ignore_case(s, "p-256") {
            Some(KeyAlgorithmKind::P256)
        } else {
            None
        }
    }
}

/// The key algorithm that a selector stands for.
pub open spec fn algorithm_of(k: KeyAlgorithmKind) -> KeyAlgorithm {
    match k {
        KeyAlgorithmKind::Ed25519 => KeyAlgorithm::Ed25519,
        KeyAlgorithmKind::P256 => KeyAlgorithm::P256,
    }
}

impl From<KeyAlgorithmKind> for KeyAlgorithm {
    fn from(k: KeyAlgorithmKind) -> (r: Self) {
        match k {
            KeyAlgorithmKind::Ed25519 => KeyAlgorithm::Ed25519,
            KeyAlgorithmKind::P256 => KeyAlgorithm::P256,
        }
    }
}

impl vstd::std_specs::convert::FromSpecImpl<KeyAlgorithmKind> for KeyAlgorithm {
    open spec fn obeys_from_spec() -> bool {
        true
    }

    open spec fn from_spec(k: KeyAlgorithmKind) -> Self {
        algorithm_of(k)
    }
}

/// Selects a Cheqd network.
#[derive(Debug, Clone, Copy, PartialEq, Eq, Structural)]
pub enum CheqdNetworkKind {
    /// Cheqd mainnet.
    Mainnet,
    /// Cheqd testnet (default).
    Testnet,
}

impl Default for CheqdNetworkKind {
    fn default() -> (r: Self)
        ensures
            r == CheqdNetworkKind::Testnet,
    {
        CheqdNetworkKind::Testnet
    }
}

/// What a name selects, whatever the case of its letters.
pub open spec fn network_named(s: Seq<char>) -> Option<CheqdNetworkKind> {
    if text::same_letters(s, "mainnet"@) {
        Some(CheqdNetworkKind::Mainnet)
    } else if text::same_letters(s, "testnet"@) {
        Some(CheqdNetworkKind::Testnet)
    } else {
        None
    }
}

impl CheqdNetworkKind {
    /// What a name selects, whatever the case of its letters.
    #[must_use]
    pub fn from_str(s: &str) -> (r: Option<Self>)
        ensures
            r == network_named(s@),
    {
        if text::eq_ignore_case(s, "mainnet") {
            Some(CheqdNetworkKind::Mainnet)
        } else if text::eq_ignore_case(s, "testnet") {
            Some(CheqdNetworkKind::Testnet)
        } else {
            None
        }
    }
}

/// The Cheqd network that a selector stands for.
pub open spec fn network_of(k: CheqdNetworkKind) -> CheqdNetwork {
    match k {
        CheqdNetworkKind::Mainnet => CheqdNetwork::Mainnet,
        CheqdNetworkKind::Testnet => CheqdNetwork::Testnet,
    }
}

impl From<CheqdNetworkKind> for CheqdNetwork {
    fn from(k: CheqdNetworkKind) -> (r: Self) {
        match k {
            CheqdNetworkKind::Mainnet => CheqdNetwork::Mainnet,
            CheqdNetworkKind::Testnet => CheqdNetwork::Testnet,
        }
    }
}

impl vstd::std_specs::convert::FromSpecImpl<CheqdNetworkKind> for CheqdNetwork {
    open spec fn obeys_from_spec() -> bool {
        true
    }

    open spec fn from_spec(k: CheqdNetworkKind) -> Self {
        network_of(k)
    }
}

/// Selects a trust level.
#[derive(Debug, Clone, Copy, PartialEq, Eq, Structural)]
pub enum TrustLevelKind {
    /// No attestation backing.
    Unverified,
    /// Self-asserted registration (default).
    SelfAsserted,
    /// Independently attested (e.g. consortium member).
    Verified,
    /// Government-issued or equivalent.
    Authoritative,
}

impl Default for TrustLevelKind {
    fn default() -> (r: Self)
        ensures
            r == TrustLevelKind::SelfAsserted,
    {
        TrustLevelKind::SelfAsserted
    }
}

/// What a name selects, whatever the case of its letters.
pub open spec fn level_named(s: Seq<char>) -> Option<TrustLevelKind> {
    if text::same_letters(s, "unverified"@) {
        Some(TrustLevelKind::Unverified)
    } else if text::same_letters(s, "self_asserted"@) {
        Some(TrustLevelKind::SelfAsserted)
    } else if text::same_letters(s, "verified"@) {
        Some(TrustLevelKind::Verified)
    } else if text::same_letters(s, "authoritative"@) {
        Some(TrustLevelKind::Authoritative)
    } else {
        None
    }
}

impl TrustLevelKind {
    /// What a name selects, whatever the case of its letters.
    #[must_use]
    pub fn from_str(s: &str) -> (r: Option<Self>)
        ensures
            r == level_named(s@),
    {
        if text::eq_ignore_case(s, "unverified") {
            Some(TrustLevelKind::Unverified)
        } else if text::eq_ignore_case(s, "self_asserted") {
            Some(TrustLevelKind::SelfAsserted)
        } else if text::eq_ignore_case(s, "verified") {
            Some(TrustLevelKind::Verified)
        } else if text::eq_ignore_case(s, "authoritative") {
            Some(TrustLevelKind::Authoritative)
        } else {
            None
        }
    }
}

/// The trust level that a selector stands for.
pub open spec fn level_of(k: TrustLevelKind) -> TrustLevel {
    match k {
        TrustLevelKind::Unverified => TrustLevel::Unverified,
        TrustLevelKind::SelfAsserted => TrustLevel::SelfAsserted,
        TrustLevelKind::Verified => TrustLevel::Verified,
        TrustLevelKind::Authoritative => TrustLevel::Authoritative,
    }
}

impl From<TrustLevelKind> for TrustLevel {
    fn from(k: TrustLevelKind) -> (r: Self) {
        match k {
            TrustLevelKind::Unverified => TrustLevel::Unverified,
            TrustLevelKind::SelfAsserted => TrustLevel::SelfAsserted,
            TrustLevelKind::Verified => TrustLevel::Verified,
            TrustLevelKind::Authoritative => TrustLevel::Authoritative,
        }
    }
}

impl vstd::std_specs::convert::FromSpecImpl<TrustLevelKind> for TrustLevel {
    open spec fn obeys_from_spec() -> bool {
        true
    }

    open spec fn from_spec(k: TrustLevelKind) -> Self {
        level_of(k)
    }
}

/// Selects a signing backend.
#[derive(Debug, Clone, Copy, PartialEq, Eq, Structural)]
pub enum SignerBackendKind {
    /// In-process software key (default). Wiped on drop.
    Software,
    /// AWS KMS - host-provided signer.
    AwsKms,
    /// Google Cloud KMS - host-provided signer.
    GcpKms,
    /// Azure Key Vault - host-provided signer.
    AzureKeyVault,
    /// PKCS#11 HSM - host-provided signer.
    Pkcs11,
}

impl Default for SignerBackendKind {
    fn default() -> (r: Self)
        ensures
            r == SignerBackendKind::Software,
    {
        SignerBackendKind::Software
    }
}

/// What a name selects, whatever the case of its letters.
pub open spec fn backend_named(s: Seq<char>) -> Option<SignerBackendKind> {
    if text::same_letters(s, "software"@) {
        Some(SignerBackendKind::Software)
    } else if text::same_letters(s, "aws_kms"@) || text::same_letters(s, "aws-kms"@) || text::same_letters(s, "kms"@) {
        Some(SignerBackendKind::AwsKms)
    } else if text::same_letters(s, "gcp_kms"@) || text::same_letters(s, "gcp-kms"@) || text::same_letters(s, "gcp"@) || text::same_letters(s, "cloud_kms"@) {
        Some(SignerBackendKind::GcpKms)
    } else if text::same_letters(s, "azure_key_vault"@) || text::same_letters(s, "azure"@) {
        Some(SignerBackendKind::AzureKeyVault)
    } else if text::same_letters(s, "pkcs11"@) || text::same_letters(s, "pkcs#11"@) || text::same_letters(s, "hsm"@) {
        Some(SignerBackendKind::Pkcs11)
    } else {
        None
    }
}

impl SignerBackendKind {
    /// What a name selects, whatever the case of its letters.
    #[must_use]
    pub fn from_str(s: &str) -> (r: Option<Self>)
        ensures
            r == backend_named(s@),
    {
        if text::eq_ignore_case(s, "software") {
            Some(SignerBackendKind::Software)
        } else if text::eq_ignore_case(s, "aws_kms") || text::eq_ignore_case(s, "aws-kms") || text::eq_ignore_case(s, "kms") {
            Some(SignerBackendKind::AwsKms)
        } else if text::eq_ignore_case(s, "gcp_kms") || text::eq_ignore_case(s, "gcp-kms") || text::eq_ignore_case(s, "gcp") || text::eq_ignore_case(s, "cloud_kms") {
            Some(SignerBackendKind::GcpKms)
        } else if text::eq_ignore_case(s, "azure_key_vault") || text::eq_ignore_case(s, "azure") {
            Some(SignerBackendKind::AzureKeyVault)
        } else if text::eq_ignore_case(s, "pkcs11") || text::eq_ignore_case(s, "pkcs#11") || text::eq_ignore_case(s, "hsm") {
            Some(SignerBackendKind::Pkcs11)
        } else {
            None
        }
    }

    /// The canonical lowercase backend name.
    #[must_use]
    pub fn as_str(self) -> (r: &'static str)
        ensures
            r@ == backend_name(self),
    {
        match self {
            SignerBackendKind::Software => "software",
            SignerBackendKind::AwsKms => "aws_kms",
            SignerBackendKind::GcpKms => "gcp_kms",
            SignerBackendKind::AzureKeyVault => "azure_key_vault",
            SignerBackendKind::Pkcs11 => "pkcs11",
        }
    }
}

/// The canonical lowercase name of a backend.
pub open spec fn backend_name(k: SignerBackendKind) -> Seq<char> {
    match k {
        SignerBackendKind::Software => "software"@,
        SignerBackendKind::AwsKms => "aws_kms"@,
        SignerBackendKind::GcpKms => "gcp_kms"@,
        SignerBackendKind::AzureKeyVault => "azure_key_vault"@,
        SignerBackendKind::Pkcs11 => "pkcs11"@,
    }
}

/// A backend's canonical name selects that backend.
pub proof fn backend_names_are_recognised(k: SignerBackendKind)
    ensures
        backend_named(backend_name(k)) == Some(k),
{
    reveal_strlit("software");
    assert("software"@.len() == 8);
    reveal_strlit("aws_kms");
    assert("aws_kms"@.len() == 7);
    reveal_strlit("aws-kms");
    assert("aws-kms"@.len() == 7);
    reveal_strlit("kms");
    assert("kms"@.len() == 3);
    reveal_strlit("gcp_kms");
    assert("gcp_kms"@.len() == 7);
    reveal_strlit("gcp-kms");
    assert("gcp-kms"@.len() == 7);
    reveal_strlit("gcp");
    assert("gcp"@.len() == 3);
    reveal_strlit("cloud_kms");
    assert("cloud_kms"@.len() == 9);
    reveal_strlit("azure_key_vault");
    assert("azure_key_vault"@.len() == 15);
    reveal_strlit("azure");
    assert("azure"@.len() == 5);
    reveal_strlit("pkcs11");
    assert("pkcs11"@.len() == 6);
    reveal_strlit("pkcs#11");
    assert("pkcs#11"@.len() == 7);
    reveal_strlit("hsm");
    assert("hsm"@.len() == 3);
    assert(!text::same_letters("aws_kms"@, "aws-kms"@)) by {
        assert(text::ascii_lower("aws_kms"@[3]) != text::ascii_lower("aws-kms"@[3]));
    }
    assert(!text::same_letters("aws_kms"@, "gcp_kms"@)) by {
        assert(text::ascii_lower("aws_kms"@[0]) != text::ascii_lower("gcp_kms"@[0]));
    }
    assert(!text::same_letters("aws_kms"@, "gcp-kms"@)) by {
        assert(text::ascii_lower("aws_kms"@[0]) != text::ascii_lower("gcp-kms"@[0]));
    }
    assert(!text::same_letters("aws_kms"@, "pkcs#11"@)) by {
        assert(text::ascii_lower("aws_kms"@[0]) != text::ascii_lower("pkcs#11"@[0]));
    }
    assert(!text::same_letters("gcp_kms"@, "aws_kms"@)) by {
        assert(text::ascii_lower("gcp_kms"@[0]) != text::ascii_lower("aws_kms"@[0]));
    }
    assert(!text::same_letters("gcp_kms"@, "aws-kms"@)) by {
        assert(text::ascii_lower("gcp_kms"@[0]) != text::ascii_lower("aws-kms"@[0]));
    }
    assert(!text::same_letters("gcp_kms"@, "gcp-kms"@)) by {
        assert(text::ascii_lower("gcp_kms"@[3]) != text::ascii_lower("gcp-kms"@[3]));
    }
    assert(!text::same_letters("gcp_kms"@, "pkcs#11"@)) by {
        assert(text::ascii_lower("gcp_kms"@[0]) != text::ascii_lower("pkcs#11"@[0]));
    }
}

/// A name selects the same whatever the case of its letters.
pub proof fn backend_names_ignore_case(a: Seq<char>, b: Seq<char>)
    requires
        text::same_letters(a, b),
    ensures
        backend_named(a) == backend_named(b),
{
    assert forall|n: Seq<char>| #[trigger] text::same_letters(a, n) == text::same_letters(b, n) by {
        if text::same_letters(a, n) {
            assert forall|i: int| 0 <= i < b.len() implies text::ascii_lower(#[trigger] b[i])
                == text::ascii_lower(n[i]) by {
                assert(text::ascii_lower(a[i]) == text::ascii_lower(b[i]));
            }
        }
        if text::same_letters(b, n) {
            assert forall|i: int| 0 <= i < a.len() implies text::ascii_lower(#[trigger] a[i])
                == text::ascii_lower(n[i]) by {
                assert(text::ascii_lower(b[i]) == text::ascii_lower(n[i]));
            }
        }
    }
}

// -- Environment -----------------------------------------------------------------------------------------

/// The values of the environment variables that are set.
#[derive(Debug)]
pub struct Environment {
    /// `AC_DID_METHOD`
    pub did_method: Option<String>,
    /// `AC_KEY_ALGORITHM`
    pub key_algorithm: Option<String>,
    /// `AC_WEB_HOST`
    pub web_host: Option<String>,
    /// `AC_WEB_PATH`
    pub web_path: Option<String>,
    /// `AC_CHEQD_NETWORK`
    pub cheqd_network: Option<String>,
    /// `AC_INDY_NAMESPACE`
    pub indy_namespace: Option<String>,
    /// `AC_DELEGATION_MAX_DEPTH`
    pub max_depth: Option<String>,
    /// `AC_DELEGATION_TTL_SECS`
    pub default_ttl_secs: Option<String>,
    /// `AC_DELEGATION_MAX_TTL`
    pub max_ttl_secs: Option<String>,
    /// `AC_TRUST_MIN_LEVEL`
    pub minimum_trust_level: Option<String>,
    /// `AC_SIGNER_BACKEND`
    pub signer_backend: Option<String>,
    /// `AC_SIGNER_KEY_ID`
    pub signer_key_id: Option<String>,
    /// `AC_SIGNER_REGION`
    pub signer_region: Option<String>,
}

impl Environment {
    /// An environment in which no variable is set.
    #[must_use]
    pub fn empty() -> (r: Self)
        ensures
            r == (Environment {
                did_method: None,
                key_algorithm: None,
                web_host: None,
                web_path: None,
                cheqd_network: None,
                indy_namespace: None,
                max_depth: None,
                default_ttl_secs: None,
                max_ttl_secs: None,
                minimum_trust_level: None,
                signer_backend: None,
                signer_key_id: None,
                signer_region: None,
            }),
    {
        Environment {
            did_method: None,
            key_algorithm: None,
            web_host: None,
            web_path: None,
            cheqd_network: None,
            indy_namespace: None,
            max_depth: None,
            default_ttl_secs: None,
            max_ttl_secs: None,
            minimum_trust_level: None,
            signer_backend: None,
            signer_key_id: None,
            signer_region: None,
        }
    }
}

/// What a recognised value selects, or else what stood before.
pub open spec fn or_kept<T>(chosen: Option<T>, before: T) -> T {
    match chosen {
        Some(x) => x,
        None => before,
    }
}

/// The number of 64 bits that a variable holds.
pub open spec fn number_in(v: Option<String>) -> Option<u64> {
    match v {
        Some(s) => match text::number_of(s@) {
            Some(n) => if n <= u64::MAX {
                Some(n as u64)
            } else {
                None
            },
            None => None,
        },
        None => None,
    }
}

/// The number of 32 bits that a variable holds.
pub open spec fn small_number_in(v: Option<String>) -> Option<u32> {
    match number_in(v) {
        Some(n) => if n <= u32::MAX {
            Some(n as u32)
        } else {
            None
        },
        None => None,
    }
}

fn read_number(v: &Option<String>) -> (r: Option<u64>)
    ensures
        r == number_in(*v),
{
    match v {
        Some(s) => text::parse_u64(s.as_str()),
        None => None,
    }
}

fn or_text(v: &Option<String>, before: &Option<String>) -> (r: Option<String>)
    ensures
        text::opt_view(r) == (if *v is Some {
            text::opt_view(*v)
        } else {
            text::opt_view(*before)
        }),
{
    match v {
        Some(s) => Some(s.clone()),
        None => text::opt_clone(before),
    }
}

// -- Identity ---------------------------------------------------------------------------------------------

/// Identity and cryptographic key configuration.
#[derive(Debug)]
pub struct IdentityConfig {
    /// Which DID method to use for new identities.
    pub did_method: DidMethodKind,
    /// Preferred key algorithm for new key pairs.
    pub key_algorithm: KeyAlgorithmKind,
    /// DNS host - required when the method is `web`.
    pub web_host: Option<String>,
    /// Optional URL path suffix - used when the method is `web`.
    pub web_path: Option<String>,
    /// Cheqd network - used when the method is `cheqd`.
    pub cheqd_network: Option<CheqdNetworkKind>,
    /// Indy ledger namespace - required when the method is `indy`.
    pub indy_namespace: Option<String>,
}

/// An identity configuration as mathematical values.
#[verifier::ext_equal]
pub struct IdentityView {
    pub did_method: DidMethodKind,
    pub key_algorithm: KeyAlgorithmKind,
    pub web_host: Option<Seq<char>>,
    pub web_path: Option<Seq<char>>,
    pub cheqd_network: Option<CheqdNetworkKind>,
    pub indy_namespace: Option<Seq<char>>,
}

impl View for IdentityConfig {
    type V = IdentityView;

    open spec fn view(&self) -> IdentityView {
        IdentityView {
            did_method: self.did_method,
            key_algorithm: self.key_algorithm,
            web_host: text::opt_view(self.web_host),
            web_path: text::opt_view(self.web_path),
            cheqd_network: self.cheqd_network,
            indy_namespace: text::opt_view(self.indy_namespace),
        }
    }
}

impl Clone for IdentityConfig {
    fn clone(&self) -> (r: Self)
        ensures
            r@ == self@,
    {
        IdentityConfig {
            did_method: self.did_method,
            key_algorithm: self.key_algorithm,
            web_host: text::opt_clone(&self.web_host),
            web_path: text::opt_clone(&self.web_path),
            cheqd_network: self.cheqd_network,
            indy_namespace: text::opt_clone(&self.indy_namespace),
        }
    }
}

/// The identity configuration by default.
pub open spec fn default_identity() -> IdentityView {
    IdentityView {
        did_method: DidMethodKind::Key,
        key_algorithm: KeyAlgorithmKind::Ed25519,
        web_host: None,
        web_path: None,
        cheqd_network: None,
        indy_namespace: None,
    }
}

impl Default for IdentityConfig {
    fn default() -> (r: Self)
        ensures
            r@ == default_identity(),
    {
        IdentityConfig {
            did_method: DidMethodKind::Key,
            key_algorithm: KeyAlgorithmKind::Ed25519,
            web_host: None,
            web_path: None,
            cheqd_network: None,
            indy_namespace: None,
        }
    }
}

/// The error for a setting that the chosen method needs.
pub open spec fn missing(field: Seq<char>) -> ErrorView {
    ErrorView::MissingField { field }
}

/// The DID method that an identity configuration chooses, with an empty unique id where the
/// caller has to supply one.
pub open spec fn configured_method(c: IdentityView) -> Result<DidMethodView, ErrorView> {
    match c.did_method {
        DidMethodKind::Key => Ok(DidMethodView::Key),
        DidMethodKind::Web => match c.web_host {
            Some(host) => Ok(DidMethodView::Web { host, path: c.web_path }),
            None => Err(missing("identity.web_host"@)),
        },
        DidMethodKind::Cheqd => Ok(
            DidMethodView::Cheqd {
                network: network_of(or_kept(c.cheqd_network, CheqdNetworkKind::Testnet)),
                unique_id: Seq::<char>::empty(),
            },
        ),
        DidMethodKind::Indy => match c.indy_namespace {
            Some(namespace) => Ok(
                DidMethodView::Indy { namespace, unique_id: Seq::<char>::empty() },
            ),
            None => Err(missing("identity.indy_namespace"@)),
        },
    }
}

/// An identity configuration under an environment.
pub open spec fn identity_under(c: IdentityView, e: Environment) -> IdentityView {
    IdentityView {
        did_method: match e.did_method {
            Some(s) => or_kept(method_named(s@), c.did_method),
            None => c.did_method,
        },
        key_algorithm: match e.key_algorithm {
            Some(s) => or_kept(algorithm_named(s@), c.key_algorithm),
            None => c.key_algorithm,
        },
        web_host: if e.web_host is Some {
            text::opt_view(e.web_host)
        } else {
            c.web_host
        },
        web_path: if e.web_path is Some {
            text::opt_view(e.web_path)
        } else {
            c.web_path
        },
        cheqd_network: match e.cheqd_network {
            Some(s) => match network_named(s@) {
                Some(n) => Some(n),
                None => c.cheqd_network,
            },
            None => c.cheqd_network,
        },
        indy_namespace: if e.indy_namespace is Some {
            text::opt_view(e.indy_namespace)
        } else {
            c.indy_namespace
        },
    }
}

impl IdentityConfig {
    /// Construct the fully-specified [`DidMethod`] for this config.
    ///
    /// For methods that require a unique identifier at runtime (`did:cheqd`, `did:indy`) this
    /// returns the *template* variant - the caller supplies the per-identity `unique_id`.
    ///
    /// # Errors
    /// `MissingField` where the method needs a setting that is absent.
    pub fn did_method(&self) -> (r: Result<DidMethod, AgentCredsError>)
        ensures
            match r {
                Ok(m) => configured_method(self@) == Ok::<DidMethodView, ErrorView>(m@),
                Err(e) => configured_method(self@) == Err::<DidMethodView, ErrorView>(e@),
            },
    {
        match self.did_method {
            DidMethodKind::Key => Ok(DidMethod::Key),
            DidMethodKind::Web => match &self.web_host {
                Some(host) => Ok(
                    DidMethod::Web { host: host.clone(), path: text::opt_clone(&self.web_path) },
                ),
                None => Err(AgentCredsError::MissingField { field: "identity.web_host" }),
            },
            DidMethodKind::Cheqd => {
                let network: CheqdNetwork = match self.cheqd_network {
                    Some(n) => CheqdNetwork::from(n),
                    None => CheqdNetwork::Testnet,
                };
                let unique_id = String::new();
                assert(unique_id@ =~= Seq::<char>::empty());
                Ok(DidMethod::Cheqd { network, unique_id })
            },
            DidMethodKind::Indy => match &self.indy_namespace {
                Some(namespace) => {
                    let unique_id = String::new();
                    assert(unique_id@ =~= Seq::<char>::empty());
                    Ok(DidMethod::Indy { namespace: namespace.clone(), unique_id })
                },
                None => Err(AgentCredsError::MissingField { field: "identity.indy_namespace" }),
            },
        }
    }

    /// Map the configured key algorithm to the domain type.
    pub fn key_algorithm(&self) -> (r: KeyAlgorithm)
        ensures
            r == algorithm_of(self@.key_algorithm),
    {
        KeyAlgorithm::from(self.key_algorithm)
    }

    /// Override with what the environment sets.
    pub fn apply_env(&mut self, env: &Environment)
        ensures
            final(self)@ == identity_under(old(self)@, *env),
    {
        if let Some(v) = &env.did_method {
            if let Some(m) = DidMethodKind::from_str(v.as_str()) {
                self.did_method = m;
            }
        }
        if let Some(v) = &env.key_algorithm {
            if let Some(a) = KeyAlgorithmKind::from_str(v.as_str()) {
                self.key_algorithm = a;
            }
        }
        self.web_host = or_text(&env.web_host, &self.web_host);
        self.web_path = or_text(&env.web_path, &self.web_path);
        if let Some(v) = &env.cheqd_network {
            if let Some(n) = CheqdNetworkKind::from_str(v.as_str()) {
                self.cheqd_network = Some(n);
            }
        }
        self.indy_namespace = or_text(&env.indy_namespace, &self.indy_namespace);
    }
}

// -- Delegation -------------------------------------------------------------------------------------------

/// Delegation chain limits and token lifetime settings.
#[derive(Debug, Clone, Copy, PartialEq, Eq, Structural)]
pub struct DelegationConfig {
    /// Maximum allowed delegation depth. Tokens cannot be attenuated beyond this value.
    pub max_depth: u32,
    /// Default token TTL in seconds when the caller does not specify one.
    pub default_ttl_secs: u64,
    /// Hard ceiling on token TTL - any caller-supplied value is clamped to this.
    pub max_ttl_secs: u64,
}

impl Default for DelegationConfig {
    fn default() -> (r: Self)
        ensures
            r == (DelegationConfig { max_depth: 3, default_ttl_secs: 3600, max_ttl_secs: 86400 }),
    {
        DelegationConfig { max_depth: 3, default_ttl_secs: 3600, max_ttl_secs: 86400 }
    }
}

/// Delegation limits under an environment.
pub open spec fn delegation_under(c: DelegationConfig, e: Environment) -> DelegationConfig {
    DelegationConfig {
        max_depth: or_kept(small_number_in(e.max_depth), c.max_depth),
        default_ttl_secs: or_kept(number_in(e.default_ttl_secs), c.default_ttl_secs),
        max_ttl_secs: or_kept(number_in(e.max_ttl_secs), c.max_ttl_secs),
    }
}

impl DelegationConfig {
    /// Override with what the environment sets.
    pub fn apply_env(&mut self, env: &Environment)
        ensures
            *final(self) == delegation_under(*old(self), *env),
    {
        if let Some(n) = read_number(&env.max_depth) {
            if n <= u32::MAX as u64 {
                self.max_depth = n as u32;
            }
        }
        if let Some(n) = read_number(&env.default_ttl_secs) {
            self.default_ttl_secs = n;
        }
        if let Some(n) = read_number(&env.max_ttl_secs) {
            self.max_ttl_secs = n;
        }
    }

    /// Clamp a caller-supplied TTL to `max_ttl_secs`.
    pub fn clamp_ttl(&self, requested_secs: u64) -> (r: u64)
        ensures
            r <= self.max_ttl_secs,
            requested_secs <= self.max_ttl_secs ==> r == requested_secs,
            requested_secs > self.max_ttl_secs ==> r == self.max_ttl_secs,
    {
        if requested_secs < self.max_ttl_secs {
            requested_secs
        } else {
            self.max_ttl_secs
        }
    }
}

// -- Trust ------------------------------------------------------------------------------------------------

/// Cross-organizational trust verification settings.
#[derive(Debug, Clone, Copy, PartialEq, Eq, Structural)]
pub struct TrustConfig {
    /// Credentials from issuers below this level are rejected.
    pub minimum_trust_level: TrustLevelKind,
}

impl Default for TrustConfig {
    fn default() -> (r: Self)
        ensures
            r == (TrustConfig { minimum_trust_level: TrustLevelKind::SelfAsserted }),
    {
        TrustConfig { minimum_trust_level: TrustLevelKind::SelfAsserted }
    }
}

/// Trust settings under an environment.
pub open spec fn trust_under(c: TrustConfig, e: Environment) -> TrustConfig {
    TrustConfig {
        minimum_trust_level: match e.minimum_trust_level {
            Some(s) => or_kept(level_named(s@), c.minimum_trust_level),
            None => c.minimum_trust_level,
        },
    }
}

impl TrustConfig {
    /// Override with what the environment sets.
    pub fn apply_env(&mut self, env: &Environment)
        ensures
            *final(self) == trust_under(*old(self), *env),
    {
        if let Some(v) = &env.minimum_trust_level {
            if let Some(t) = TrustLevelKind::from_str(v.as_str()) {
                self.minimum_trust_level = t;
            }
        }
    }

    /// Map the configured minimum trust level to the domain type.
    pub fn minimum_trust_level(&self) -> (r: TrustLevel)
        ensures
            r == level_of(self.minimum_trust_level),
    {
        TrustLevel::from(self.minimum_trust_level)
    }
}

// -- Signer -----------------------------------------------------------------------------------------------

/// Trust-anchor signing backend selection. The `software` backend (default) keeps the private
/// key in process; the external backends name a key held in an HSM / cloud KMS, to be wired up
/// by the host application.
#[derive(Debug)]
pub struct SignerConfig {
    /// Which signing backend to use.
    pub backend: SignerBackendKind,
    /// Backend key identifier - KMS key id/ARN, Key Vault key name, or PKCS#11 label.
    pub key_id: Option<String>,
    /// Cloud region, for KMS backends (e.g. `us-east-1`).
    pub region: Option<String>,
}

/// A signer configuration as mathematical values.
#[verifier::ext_equal]
pub struct SignerView {
    pub backend: SignerBackendKind,
    pub key_id: Option<Seq<char>>,
    pub region: Option<Seq<char>>,
}

impl View for SignerConfig {
    type V = SignerView;

    open spec fn view(&self) -> SignerView {
        SignerView {
            backend: self.backend,
            key_id: text::opt_view(self.key_id),
            region: text::opt_view(self.region),
        }
    }
}

impl Clone for SignerConfig {
    fn clone(&self) -> (r: Self)
        ensures
            r@ == self@,
    {
        SignerConfig {
            backend: self.backend,
            key_id: text::opt_clone(&self.key_id),
            region: text::opt_clone(&self.region),
        }
    }
}

/// The signer configuration by default.
pub open spec fn default_signer() -> SignerView {
    SignerView { backend: SignerBackendKind::Software, key_id: None, region: None }
}

impl Default for SignerConfig {
    fn default() -> (r: Self)
        ensures
            r@ == default_signer(),
    {
        SignerConfig { backend: SignerBackendKind::Software, key_id: None, region: None }
    }
}

/// A signer configuration under an environment.
pub open spec fn signer_under(c: SignerView, e: Environment) -> SignerView {
    SignerView {
        backend: match e.signer_backend {
            Some(s) => or_kept(backend_named(s@), c.backend),
            None => c.backend,
        },
        key_id: if e.signer_key_id is Some {
            text::opt_view(e.signer_key_id)
        } else {
            c.key_id
        },
        region: if e.signer_region is Some {
            text::opt_view(e.signer_region)
        } else {
            c.region
        },
    }
}

/// The error for a backend that only the host can build.
pub open spec fn external_backend(k: SignerBackendKind) -> ErrorView {
    ErrorView::OutOfBounds {
        field: "signer.backend"@,
        detail: "backend '"@ + backend_name(k)
            + "' is an external HSM/KMS - construct it in your host (with its SDK) and pass it to TrustAnchor::from_signer; the core builds only the 'software' backend to stay offline"@,
    }
}

impl SignerConfig {
    /// Override with what the environment sets.
    pub fn apply_env(&mut self, env: &Environment)
        ensures
            final(self)@ == signer_under(old(self)@, *env),
    {
        if let Some(v) = &env.signer_backend {
            if let Some(b) = SignerBackendKind::from_str(v.as_str()) {
                self.backend = b;
            }
        }
        self.key_id = or_text(&env.signer_key_id, &self.key_id);
        self.region = or_text(&env.signer_region, &self.region);
    }

    /// Build the configured signer. The `software` backend is constructed here; an external
    /// HSM/KMS backend returns an error directing you to build it in your host (which has the
    /// relevant SDK) and pass it to [`crate::did::TrustAnchor::from_signer`] - keeping the core
    /// offline.
    ///
    /// # Errors
    /// `OutOfBounds` for any external backend; `CryptoError` if generating a P-256 key fails.
    pub fn build_signer(&self, algorithm: KeyAlgorithm) -> (r: Result<
        Box<dyn AnchorSigner>,
        AgentCredsError,
    >)
        ensures
            self@.backend != SignerBackendKind::Software ==> r is Err && r->Err_0@
                == external_backend(self@.backend),
            self@.backend == SignerBackendKind::Software ==> match r {
                Ok(s) => s.key().algorithm == algorithm,
                Err(e) => algorithm is P256 && e@ is CryptoError,
            },
    {
        match self.backend {
            SignerBackendKind::Software => match SoftwareSigner::generate(Some(algorithm)) {
                Ok(s) => Ok(Box::new(s)),
                Err(e) => Err(e),
            },
            external => {
                let mut detail = "backend '".to_owned();
                detail.append(external.as_str());
                detail.append(
                    "' is an external HSM/KMS - construct it in your host (with its SDK) and pass it to TrustAnchor::from_signer; the core builds only the 'software' backend to stay offline",
                );
                Err(AgentCredsError::OutOfBounds { field: "signer.backend", detail })
            },
        }
    }
}

// -- Identity providers -----------------------------------------------------------------------------------

/// How long (seconds) a fetched key set is cached where nothing is configured.
pub const DEFAULT_JWKS_TTL_SECS: u64 = 3600;

/// A trusted OpenID Connect identity provider. The host fetches the provider's key set (via
/// discovery) and validates human ID tokens against it.
#[derive(Debug)]
pub struct IdpConfig {
    /// The provider's exact `iss` - must match the `iss` claim of accepted tokens.
    pub issuer: String,
    /// The audience (client id) accepted tokens must list in `aud`.
    pub audience: String,
    /// How long (seconds) a fetched key set may be cached before re-fetching.
    pub jwks_ttl_secs: u64,
    /// Trust level for humans attested by this provider.
    pub trust_level: TrustLevelKind,
    /// Explicit discovery document URL.
    pub discovery_url: Option<String>,
}

/// An identity provider as mathematical values.
#[verifier::ext_equal]
pub struct IdpView {
    pub issuer: Seq<char>,
    pub audience: Seq<char>,
    pub jwks_ttl_secs: u64,
    pub trust_level: TrustLevelKind,
    pub discovery_url: Option<Seq<char>>,
}

impl View for IdpConfig {
    type V = IdpView;

    open spec fn view(&self) -> IdpView {
        IdpView {
            issuer: self.issuer@,
            audience: self.audience@,
            jwks_ttl_secs: self.jwks_ttl_secs,
            trust_level: self.trust_level,
            discovery_url: text::opt_view(self.discovery_url),
        }
    }
}

impl Clone for IdpConfig {
    fn clone(&self) -> (r: Self)
        ensures
            r@ == self@,
    {
        IdpConfig {
            issuer: self.issuer.clone(),
            audience: self.audience.clone(),
            jwks_ttl_secs: self.jwks_ttl_secs,
            trust_level: self.trust_level,
            discovery_url: text::opt_clone(&self.discovery_url),
        }
    }
}

/// Where a provider's discovery document is.
pub open spec fn discovery_of(c: IdpView) -> Seq<char> {
    match c.discovery_url {
        Some(u) => u,
        None => text::trimmed_end(c.issuer, '/') + "/.well-known/openid-configuration"@,
    }
}

impl IdpConfig {
    /// The OIDC discovery document URL - the explicit `discovery_url`, or the standard
    /// `<issuer>/.well-known/openid-configuration` derived from `issuer`.
    pub fn discovery_url(&self) -> (r: String)
        ensures
            r@ == discovery_of(self@),
    {
        match &self.discovery_url {
            Some(u) => u.clone(),
            None => {
                let mut s = text::trim_end_char(self.issuer.as_str(), '/');
                s.append("/.well-known/openid-configuration");
                s
            },
        }
    }

    /// Map the configured trust level to the domain type.
    pub fn trust_level(&self) -> (r: TrustLevel)
        ensures
            r == level_of(self.trust_level),
    {
        TrustLevel::from(self.trust_level)
    }
}

// -- The whole configuration ------------------------------------------------------------------------------

/// Complete configuration.
#[derive(Debug)]
pub struct AgentCredsConfig {
    /// Identity and key material choices.
    pub identity: IdentityConfig,
    /// Delegation chain limits.
    pub delegation: DelegationConfig,
    /// Cross-organizational trust verification settings.
    pub trust: TrustConfig,
    /// Trust-anchor signing backend (software, or an external HSM/KMS).
    pub signer: SignerConfig,
    /// Trusted OpenID Connect identity providers, for on-behalf-of issuance.
    pub idp: Vec<IdpConfig>,
}

/// A configuration as mathematical values.
#[verifier::ext_equal]
pub struct ConfigView {
    pub identity: IdentityView,
    pub delegation: DelegationConfig,
    pub trust: TrustConfig,
    pub signer: SignerView,
    pub idp: Seq<IdpView>,
}

impl View for AgentCredsConfig {
    type V = ConfigView;

    open spec fn view(&self) -> ConfigView {
        ConfigView {
            identity: self.identity@,
            delegation: self.delegation,
            trust: self.trust,
            signer: self.signer@,
            idp: self.idp@.map_values(|i: IdpConfig| i@),
        }
    }
}

impl Clone for AgentCredsConfig {
    fn clone(&self) -> (r: Self)
        ensures
            r@ == self@,
    {
        let mut idp: Vec<IdpConfig> = Vec::new();
        for i in 0..self.idp.len()
            invariant
                idp@.len() == i,
                forall|j: int| 0 <= j < i ==> (#[trigger] idp@[j])@ == self.idp@[j]@,
        {
            idp.push(self.idp[i].clone());
        }
        let r = AgentCredsConfig {
            identity: self.identity.clone(),
            delegation: self.delegation,
            trust: self.trust,
            signer: self.signer.clone(),
            idp,
        };
        assert(r@.idp =~= self@.idp);
        r
    }
}

/// The configuration by default.
pub open spec fn default_config() -> ConfigView {
    ConfigView {
        identity: default_identity(),
        delegation: DelegationConfig { max_depth: 3, default_ttl_secs: 3600, max_ttl_secs: 86400 },
        trust: TrustConfig { minimum_trust_level: TrustLevelKind::SelfAsserted },
        signer: default_signer(),
        idp: Seq::<IdpView>::empty(),
    }
}

impl Default for AgentCredsConfig {
    fn default() -> (r: Self)
        ensures
            r@ == default_config(),
    {
        let r = AgentCredsConfig {
            identity: IdentityConfig::default(),
            delegation: DelegationConfig::default(),
            trust: TrustConfig::default(),
            signer: SignerConfig::default(),
            idp: Vec::new(),
        };
        assert(r@.idp =~= Seq::<IdpView>::empty());
        r
    }
}

/// A configuration under an environment.
pub open spec fn config_under(c: ConfigView, e: Environment) -> ConfigView {
    ConfigView {
        identity: identity_under(c.identity, e),
        delegation: delegation_under(c.delegation, e),
        trust: trust_under(c.trust, e),
        signer: signer_under(c.signer, e),
        idp: c.idp,
    }
}

impl AgentCredsConfig {
    /// Build configuration from the environment variables that are set, falling back to
    /// defaults for any variable that is not set or contains an unrecognised value.
    pub fn from_env(env: &Environment) -> (r: Self)
        ensures
            r@ == config_under(default_config(), *env),
    {
        let mut cfg = Self::default();
        cfg.identity.apply_env(env);
        cfg.delegation.apply_env(env);
        cfg.trust.apply_env(env);
        cfg.signer.apply_env(env);
        cfg
    }

    /// Build the configured trust-anchor signer, using the identity section's key algorithm.
    ///
    /// # Errors
    /// `OutOfBounds` if the signer's backend is an external backend; `CryptoError` if
    /// generating a P-256 key fails.
    pub fn build_signer(&self) -> (r: Result<Box<dyn AnchorSigner>, AgentCredsError>)
        ensures
            self@.signer.backend != SignerBackendKind::Software ==> r is Err && r->Err_0@
                == external_backend(self@.signer.backend),
            self@.signer.backend == SignerBackendKind::Software ==> match r {
                Ok(s) => s.key().algorithm == algorithm_of(self@.identity.key_algorithm),
                Err(e) => self@.identity.key_algorithm == KeyAlgorithmKind::P256
                    && e@ is CryptoError,
            },
    {
        self.signer.build_signer(self.identity.key_algorithm())
    }

    /// Validate that all required fields for the chosen DID method are present. Agrees with
    /// [`IdentityConfig::did_method`]; useful to call eagerly at startup to surface
    /// misconfigurations early.
    ///
    /// # Errors
    /// As [`IdentityConfig::did_method`].
    pub fn validate(&self) -> (r: Result<(), AgentCredsError>)
        ensures
            r is Ok == configured_method(self@.identity) is Ok,
            r is Err ==> configured_method(self@.identity) == Err::<DidMethodView, ErrorView>(
                r->Err_0@,
            ),
    {
        match self.identity.did_method() {
            Ok(_) => Ok(()),
            Err(e) => Err(e),
        }
    }

    /// The configured identity provider whose `issuer` matches `issuer`, if any: the first
    /// where there are several.
    pub fn idp_for(&self, issuer: &str) -> (r: Option<&IdpConfig>)
        ensures
            match r {
                Some(c) => exists|k: int|
                    0 <= k < self@.idp.len() && c@ == #[trigger] self@.idp[k] && c@.issuer
                        == issuer@ && forall|j: int|
                        0 <= j < k ==> (#[trigger] self@.idp[j]).issuer != issuer@,
                None => forall|j: int|
                    0 <= j < self@.idp.len() ==> (#[trigger] self@.idp[j]).issuer != issuer@,
            },
    {
        for i in 0..self.idp.len()
            invariant
                self@.idp.len() == self.idp@.len(),
                forall|j: int| 0 <= j < i ==> (#[trigger] self@.idp[j]).issuer != issuer@,
        {
            assert(self@.idp[i as int] == self.idp@[i as int]@);
            if text::str_eq(self.idp[i].issuer.as_str(), issuer) {
                return Some(&self.idp[i]);
            }
        }
        None
    }
}

/// An environment in which no variable is set changes nothing.
pub proof fn an_empty_environment_changes_nothing(c: ConfigView, e: Environment)
    requires
        e == (Environment {
            did_method: None,
            key_algorithm: None,
            web_host: None,
            web_path: None,
            cheqd_network: None,
            indy_namespace: None,
            max_depth: None,
            default_ttl_secs: None,
            max_ttl_secs: None,
            minimum_trust_level: None,
            signer_backend: None,
            signer_key_id: None,
            signer_region: None,
        }),
    ensures
        config_under(c, e) == c,
{
}

/// A value that is not recognised leaves the setting as it was.
pub proof fn an_unrecognised_value_changes_nothing(c: ConfigView, e: Environment)
    ensures
        e.did_method is Some && method_named(e.did_method->0@) is None ==> config_under(
            c,
            e,
        ).identity.did_method == c.identity.did_method,
        e.key_algorithm is Some && algorithm_named(e.key_algorithm->0@) is None ==> config_under(
            c,
            e,
        ).identity.key_algorithm == c.identity.key_algorithm,
        e.cheqd_network is Some && network_named(e.cheqd_network->0@) is None ==> config_under(
            c,
            e,
        ).identity.cheqd_network == c.identity.cheqd_network,
        small_number_in(e.max_depth) is None ==> config_under(c, e).delegation.max_depth
            == c.delegation.max_depth,
        number_in(e.default_ttl_secs) is None ==> config_under(c, e).delegation.default_ttl_secs
            == c.delegation.default_ttl_secs,
        number_in(e.max_ttl_secs) is None ==> config_under(c, e).delegation.max_ttl_secs
            == c.delegation.max_ttl_secs,
        e.minimum_trust_level is Some && level_named(e.minimum_trust_level->0@) is None
            ==> config_under(c, e).trust == c.trust,
        e.signer_backend is Some && backend_named(e.signer_backend->0@) is None ==> config_under(
            c,
            e,
        ).signer.backend == c.signer.backend,
{
}

// -- What the environment changes ------------------------------------------------------------------------

/// A value that the environment gives is taken over: a recognised name or number replaces what was
/// configured, a text replaces it as it is, and each touches its own setting only.
pub proof fn a_recognised_value_is_taken_over(c: ConfigView, e: Environment)
    ensures
        e.did_method is Some && method_named(e.did_method->0@) is Some ==> config_under(
            c,
            e,
        ).identity.did_method == method_named(e.did_method->0@)->0,
        e.did_method is None ==> config_under(c, e).identity.did_method == c.identity.did_method,
        e.key_algorithm is Some && algorithm_named(e.key_algorithm->0@) is Some ==> config_under(
            c,
            e,
        ).identity.key_algorithm == algorithm_named(e.key_algorithm->0@)->0,
        e.key_algorithm is None ==> config_under(c, e).identity.key_algorithm
            == c.identity.key_algorithm,
        e.web_host is Some ==> config_under(c, e).identity.web_host == Some(e.web_host->0@),
        e.web_host is None ==> config_under(c, e).identity.web_host == c.identity.web_host,
        e.web_path is Some ==> config_under(c, e).identity.web_path == Some(e.web_path->0@),
        e.web_path is None ==> config_under(c, e).identity.web_path == c.identity.web_path,
        e.cheqd_network is Some && network_named(e.cheqd_network->0@) is Some ==> config_under(
            c,
            e,
        ).identity.cheqd_network == network_named(e.cheqd_network->0@),
        e.cheqd_network is None ==> config_under(c, e).identity.cheqd_network
            == c.identity.cheqd_network,
        e.indy_namespace is Some ==> config_under(c, e).identity.indy_namespace == Some(
            e.indy_namespace->0@,
        ),
        e.indy_namespace is None ==> config_under(c, e).identity.indy_namespace
            == c.identity.indy_namespace,
        small_number_in(e.max_depth) is Some ==> config_under(c, e).delegation.max_depth
            == small_number_in(e.max_depth)->0,
        number_in(e.default_ttl_secs) is Some ==> config_under(c, e).delegation.default_ttl_secs
            == number_in(e.default_ttl_secs)->0,
        number_in(e.max_ttl_secs) is Some ==> config_under(c, e).delegation.max_ttl_secs
            == number_in(e.max_ttl_secs)->0,
        e.minimum_trust_level is Some && level_named(e.minimum_trust_level->0@) is Some
            ==> config_under(c, e).trust.minimum_trust_level == level_named(
            e.minimum_trust_level->0@,
        )->0,
        e.minimum_trust_level is None ==> config_under(c, e).trust == c.trust,
        e.signer_backend is Some && backend_named(e.signer_backend->0@) is Some ==> config_under(
            c,
            e,
        ).signer.backend == backend_named(e.signer_backend->0@)->0,
        e.signer_backend is None ==> config_under(c, e).signer.backend == c.signer.backend,
        e.signer_key_id is Some ==> config_under(c, e).signer.key_id == Some(e.signer_key_id->0@),
        e.signer_key_id is None ==> config_under(c, e).signer.key_id == c.signer.key_id,
        e.signer_region is Some ==> config_under(c, e).signer.region == Some(e.signer_region->0@),
        e.signer_region is None ==> config_under(c, e).signer.region == c.signer.region,
        config_under(c, e).idp == c.idp,
{
}

/// A number of the environment is read where it is one that the setting can hold, and as it is.
pub proof fn a_number_is_read_as_it_is(v: Option<String>, n: nat)
    requires
        v is Some,
        v->0@ == text::decimal(n),
    ensures
        n <= u64::MAX ==> number_in(v) == Some(n as u64),
        n > u64::MAX ==> number_in(v) is None,
        n <= u32::MAX ==> small_number_in(v) == Some(n as u32),
        n > u32::MAX ==> small_number_in(v) is None,
{
    text::a_decimal_reads_back(n);
}

proof fn lemma_named_apart(s: Seq<char>, a: Seq<char>, b: Seq<char>)
    requires
        text::same_letters(s, a),
        text::same_letters(s, b),
    ensures
        text::same_letters(a, b),
{
    assert forall|i: int| 0 <= i < a.len() implies text::ascii_lower(#[trigger] a[i])
        == text::ascii_lower(b[i]) by {
        assert(text::ascii_lower(s[i]) == text::ascii_lower(a[i]));
        assert(text::ascii_lower(s[i]) == text::ascii_lower(b[i]));
    }
}

/// The names of the settings are recognised in whatever case, each as its own kind and no other text as
/// any.
pub proof fn names_are_recognised_as_their_own(s: Seq<char>)
    ensures
        method_named(s) == Some(DidMethodKind::Key) <==> text::same_letters(s, "key"@),
        method_named(s) == Some(DidMethodKind::Web) <==> text::same_letters(s, "web"@),
        method_named(s) == Some(DidMethodKind::Cheqd) <==> text::same_letters(s, "cheqd"@),
        method_named(s) == Some(DidMethodKind::Indy) <==> text::same_letters(s, "indy"@),
        algorithm_named(s) == Some(KeyAlgorithmKind::Ed25519) <==> text::same_letters(
            s,
            "ed25519"@,
        ),
        algorithm_named(s) == Some(KeyAlgorithmKind::P256) <==> text::same_letters(s, "p256"@)
            || text::same_letters(s, "p-256"@),
        network_named(s) == Some(CheqdNetworkKind::Mainnet) <==> text::same_letters(s, "mainnet"@),
        network_named(s) == Some(CheqdNetworkKind::Testnet) <==> text::same_letters(s, "testnet"@),
        level_named(s) == Some(TrustLevelKind::Unverified) <==> text::same_letters(
            s,
            "unverified"@,
        ),
        level_named(s) == Some(TrustLevelKind::SelfAsserted) <==> text::same_letters(
            s,
            "self_asserted"@,
        ),
        level_named(s) == Some(TrustLevelKind::Verified) <==> text::same_letters(s, "verified"@),
        level_named(s) == Some(TrustLevelKind::Authoritative) <==> text::same_letters(
            s,
            "authoritative"@,
        ),
{
    reveal_strlit("key");
    reveal_strlit("web");
    reveal_strlit("cheqd");
    reveal_strlit("indy");
    reveal_strlit("ed25519");
    reveal_strlit("p256");
    reveal_strlit("p-256");
    reveal_strlit("mainnet");
    reveal_strlit("testnet");
    reveal_strlit("unverified");
    reveal_strlit("self_asserted");
    reveal_strlit("verified");
    reveal_strlit("authoritative");
    if text::same_letters(s, "key"@) && text::same_letters(s, "web"@) {
        lemma_named_apart(s, "key"@, "web"@);
        assert(text::ascii_lower("key"@[0]) == text::ascii_lower("web"@[0]));
    }
    if text::same_letters(s, "mainnet"@) && text::same_letters(s, "testnet"@) {
        lemma_named_apart(s, "mainnet"@, "testnet"@);
        assert(text::ascii_lower("mainnet"@[0]) == text::ascii_lower("testnet"@[0]));
    }
    if text::same_letters(s, "self_asserted"@) && text::same_letters(s, "authoritative"@) {
        lemma_named_apart(s, "self_asserted"@, "authoritative"@);
        assert(text::ascii_lower("self_asserted"@[0]) == text::ascii_lower("authoritative"@[0]));
    }
}

/// The configured method is the one that was asked for, with what names it; a web identity without a
/// host and an Indy one without a namespace are refused as missing that field.
pub proof fn a_configured_method_is_the_one_asked_for(c: IdentityView)
    ensures
        c.did_method is Key ==> configured_method(c) == Ok::<DidMethodView, ErrorView>(
            DidMethodView::Key,
        ),
        c.did_method is Web && c.web_host is Some ==> configured_method(c) == Ok::<
            DidMethodView,
            ErrorView,
        >(DidMethodView::Web { host: c.web_host->0, path: c.web_path }),
        c.did_method is Web && c.web_host is None ==> configured_method(c) is Err
            && configured_method(c)->Err_0 is MissingField,
        c.did_method is Indy && c.indy_namespace is Some ==> configured_method(c) is Ok
            && configured_method(c)->Ok_0 is Indy && configured_method(c)->Ok_0->namespace
            == c.indy_namespace->0,
        c.did_method is Indy && c.indy_namespace is None ==> configured_method(c) is Err
            && configured_method(c)->Err_0 is MissingField,
        c.did_method is Cheqd ==> configured_method(c) is Ok && configured_method(c)->Ok_0 is Cheqd
            && (configured_method(c)->Ok_0->network is Mainnet <==> c.cheqd_network == Some(
            CheqdNetworkKind::Mainnet,
        )),
{
}

/// An identity provider is discovered at the address that was configured, or under its issuer.
pub proof fn a_provider_is_discovered_under_its_issuer(c: IdpView)
    ensures
        c.discovery_url is Some ==> discovery_of(c) == c.discovery_url->0,
        c.discovery_url is None && (c.issuer.len() > 0 ==> c.issuer.last() != '/') ==> discovery_of(c)
            == c.issuer + "/.well-known/openid-configuration"@,
        c.discovery_url is None ==> discovery_of(c) == discovery_of(
            IdpView { issuer: c.issuer.push('/'), ..c },
        ),
{
    assert(c.issuer.push('/').drop_last() =~= c.issuer);
}

/// A configured kind stands for the kind of its name.
pub proof fn kinds_stand_for_themselves(
    a: KeyAlgorithmKind,
    n: CheqdNetworkKind,
    l: TrustLevelKind,
)
    ensures
        algorithm_of(a) is Ed25519 <==> a is Ed25519,
        network_of(n) is Mainnet <==> n is Mainnet,
        level_of(l) is Unverified <==> l is Unverified,
        level_of(l) is SelfAsserted <==> l is SelfAsserted,
        level_of(l) is Verified <==> l is Verified,
        level_of(l) is Authoritative <==> l is Authoritative,
{
}

} // verus!
