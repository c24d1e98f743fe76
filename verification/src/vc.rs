//! Capability credentials: what an anchor grants an agent, signed by the anchor.

use vstd::prelude::*;
use vstd::string::*;
use crate::approval;
use crate::approval::{Gate, GateView};
use crate::crypto;
use crate::did;
use crate::did::{KeyView, TrustAnchor};
use crate::encoding;
use crate::error::{AgentCredsError, ErrorView};
use crate::signed;
use crate::text;
use crate::time;
use crate::time::Timestamp;

verus! {

/// The longest a credential may be valid: a century.
pub const MAX_VALID_FOR_SECS: u64 = 3153600000;

/// The longest a token may live at the lowest autonomy level: one hour.
pub const DEFAULT_TOKEN_TTL_SECS: u64 = 3600;

/// The wire format of a credential.
#[derive(Debug, Clone, Copy, PartialEq, Eq, Structural)]
pub enum CredentialFormat {
    /// W3C linked-data credential.
    W3cLinkedData,
    /// SD-JWT verifiable credential.
    SdJwtVc,
}

/// Where a credential's revocation status is kept.
#[derive(Debug)]
pub struct CredentialStatus {
    /// The status list.
    pub list: String,
    /// The credential's place in it.
    pub index: u64,
}

impl Clone for CredentialStatus {
    fn clone(&self) -> (r: Self)
        ensures
            r.list@ == self.list@,
            r.index == self.index,
    {
        CredentialStatus { list: self.list.clone(), index: self.index }
    }
}

/// The human on whose behalf an agent acts, and what that human may reach.
#[derive(Debug)]
pub struct HumanAuthorization {
    /// The human's DID.
    pub principal_did: String,
    /// Prefix patterns of the resources the human is entitled to; empty = unconstrained.
    pub resource_authority: Vec<String>,
}

/// A human authorization as mathematical values.
#[verifier::ext_equal]
pub struct AuthorizationView {
    pub principal_did: Seq<char>,
    pub resource_authority: Seq<Seq<char>>,
}

impl View for HumanAuthorization {
    type V = AuthorizationView;

    open spec fn view(&self) -> AuthorizationView {
        AuthorizationView {
            principal_did: self.principal_did@,
            resource_authority: text::views(self.resource_authority@),
        }
    }
}

impl Clone for HumanAuthorization {
    fn clone(&self) -> (r: Self)
        ensures
            r@ == self@,
    {
        HumanAuthorization {
            principal_did: self.principal_did.clone(),
            resource_authority: text::strings_clone(&self.resource_authority),
        }
    }
}

/// What a credential grants.
#[derive(Debug)]
pub struct CapabilityClaims {
    /// Tool identifiers granted.
    pub tools: Vec<String>,
    /// Prefix patterns of the resources the grant reaches; `None` = unconstrained.
    pub resources: Option<Vec<String>>,
    /// Spend ceiling in USD-cents.
    pub budget_usd: Option<u32>,
    /// How many times a token from this credential may be delegated.
    pub max_delegation_depth: u32,
    /// How long the credential is valid.
    pub valid_for_secs: u64,
    /// How little oversight the agent operates under.
    pub autonomy_level: u8,
    /// How long a token may live at that level.
    pub token_ttl_ceiling_secs: u64,
    /// The human on whose behalf the agent acts.
    pub on_behalf_of: Option<HumanAuthorization>,
    /// Gates every token from this credential carries.
    pub required_gates: Vec<Gate>,
}

/// Claims as mathematical values.
#[verifier::ext_equal]
pub struct ClaimsView {
    pub tools: Seq<Seq<char>>,
    pub resources: Option<Seq<Seq<char>>>,
    pub budget_usd: Option<u32>,
    pub max_delegation_depth: u32,
    pub valid_for_secs: u64,
    pub autonomy_level: u8,
    pub token_ttl_ceiling_secs: u64,
    pub on_behalf_of: Option<AuthorizationView>,
    pub required_gates: Seq<GateView>,
}

/// The view of an optional list of strings.
pub open spec fn opt_views(v: Option<Vec<String>>) -> Option<Seq<Seq<char>>> {
    match v {
        Some(x) => Some(text::views(x@)),
        None => None,
    }
}

/// The view of an optional authorization.
pub open spec fn opt_authorization(v: Option<HumanAuthorization>) -> Option<AuthorizationView> {
    match v {
        Some(x) => Some(x@),
        None => None,
    }
}

impl View for CapabilityClaims {
    type V = ClaimsView;

    open spec fn view(&self) -> ClaimsView {
        ClaimsView {
            tools: text::views(self.tools@),
            resources: opt_views(self.resources),
            budget_usd: self.budget_usd,
            max_delegation_depth: self.max_delegation_depth,
            valid_for_secs: self.valid_for_secs,
            autonomy_level: self.autonomy_level,
            token_ttl_ceiling_secs: self.token_ttl_ceiling_secs,
            on_behalf_of: opt_authorization(self.on_behalf_of),
            required_gates: approval::gate_views(self.required_gates@),
        }
    }
}

impl Clone for CapabilityClaims {
    fn clone(&self) -> (r: Self)
        ensures
            r@ == self@,
    {
        CapabilityClaims {
            tools: text::strings_clone(&self.tools),
            resources: match &self.resources {
                Some(v) => Some(text::strings_clone(v)),
                None => None,
            },
            budget_usd: self.budget_usd,
            max_delegation_depth: self.max_delegation_depth,
            valid_for_secs: self.valid_for_secs,
            autonomy_level: self.autonomy_level,
            token_ttl_ceiling_secs: self.token_ttl_ceiling_secs,
            on_behalf_of: match &self.on_behalf_of {
                Some(h) => Some(h.clone()),
                None => None,
            },
            required_gates: approval::gates_clone(&self.required_gates),
        }
    }
}

/// What is wrong with claims, if anything: the validity must be between one second and a
/// century.
pub open spec fn claims_error(c: ClaimsView) -> Option<ErrorView> {
    if c.valid_for_secs == 0 {
        Some(ErrorView::OutOfBounds { field: "valid_for_secs"@, detail: "must be > 0"@ })
    } else if c.valid_for_secs > MAX_VALID_FOR_SECS {
        Some(
            ErrorView::OutOfBounds {
                field: "valid_for_secs"@,
                detail: "must be <= "@ + text::decimal(MAX_VALID_FOR_SECS as nat),
            },
        )
    } else {
        None
    }
}

impl CapabilityClaims {
    /// Claims for some tools, a delegation depth and a validity, with nothing else set.
    pub fn new(tools: Vec<String>, max_delegation_depth: u32, valid_for_secs: u64) -> (r: Self)
        ensures
            r@ == (ClaimsView {
                tools: text::views(tools@),
                resources: None,
                budget_usd: None,
                max_delegation_depth,
                valid_for_secs,
                autonomy_level: 0,
                token_ttl_ceiling_secs: DEFAULT_TOKEN_TTL_SECS,
                on_behalf_of: None,
                required_gates: Seq::<GateView>::empty(),
            }),
    {
        let r = CapabilityClaims {
            tools,
            resources: None,
            budget_usd: None,
            max_delegation_depth,
            valid_for_secs,
            autonomy_level: 0,
            token_ttl_ceiling_secs: DEFAULT_TOKEN_TTL_SECS,
            on_behalf_of: None,
            required_gates: Vec::new(),
        };
        assert(r@.required_gates =~= Seq::<GateView>::empty());
        r
    }

    /// Requires human approval for a tool in every token from the credential.
    #[must_use]
    pub fn require_approval(self, tool: &str) -> (r: Self)
        ensures
            r@ == (ClaimsView {
                required_gates: self@.required_gates.push(
                    GateView { kind: "approval"@, tool: tool@ },
                ),
                ..self@
            }),
    {
        let ghost before = self@;
        let gate = Gate::approval(tool);
        let mut r = self;
        r.required_gates.push(gate);
        assert(r@.required_gates =~= before.required_gates.push(gate@));
        r
    }

    /// Checks that the validity is one that can be issued.
    ///
    /// # Errors
    /// `OutOfBounds` where it is zero or longer than a century.
    pub fn validate(&self) -> (r: Result<(), AgentCredsError>)
        ensures
            match r {
                Ok(_) => claims_error(self@) is None,
                Err(e) => claims_error(self@) == Some(e@),
            },
    {
        if self.valid_for_secs == 0 {
            return Err(
                AgentCredsError::OutOfBounds {
                    field: "valid_for_secs",
                    detail: "must be > 0".to_owned(),
                },
            );
        }
        if self.valid_for_secs > MAX_VALID_FOR_SECS {
            let mut detail = "must be <= ".to_owned();
            detail.append(text::u64_text(MAX_VALID_FOR_SECS).as_str());
            return Err(AgentCredsError::OutOfBounds { field: "valid_for_secs", detail });
        }
        Ok(())
    }
}

/// A capability credential: claims about a subject agent, signed by its issuer.
#[derive(Debug)]
pub struct CapabilityCredential {
    /// The credential's identifier.
    pub id: String,
    /// DID of the anchor that issued it.
    pub issuer: String,
    /// DID of the agent it is about.
    pub subject: String,
    /// The credential's wire format.
    pub format: CredentialFormat,
    /// When it was issued.
    pub issuance_date: Timestamp,
    /// When it expires.
    pub expiration_date: Timestamp,
    /// What it grants.
    pub claims: CapabilityClaims,
    /// Where its revocation status is kept.
    pub status: Option<CredentialStatus>,
    /// The issuer's signature over the credential's digest.
    pub proof_value: Vec<u8>,
}

/// A credential as mathematical values.
#[verifier::ext_equal]
pub struct CredentialView {
    pub id: Seq<char>,
    pub issuer: Seq<char>,
    pub subject: Seq<char>,
    pub format: CredentialFormat,
    pub issuance_date: int,
    pub expiration_date: int,
    pub claims: ClaimsView,
    pub status: Option<(Seq<char>, u64)>,
    pub proof_value: Seq<u8>,
}

impl View for CapabilityCredential {
    type V = CredentialView;

    open spec fn view(&self) -> CredentialView {
        CredentialView {
            id: self.id@,
            issuer: self.issuer@,
            subject: self.subject@,
            format: self.format,
            issuance_date: self.issuance_date@,
            expiration_date: self.expiration_date@,
            claims: self.claims@,
            status: match self.status {
                Some(s) => Some((s.list@, s.index)),
                None => None,
            },
            proof_value: self.proof_value@,
        }
    }
}

impl Clone for CapabilityCredential {
    fn clone(&self) -> (r: Self)
        ensures
            r@ == self@,
    {
        CapabilityCredential {
            id: self.id.clone(),
            issuer: self.issuer.clone(),
            subject: self.subject.clone(),
            format: self.format,
            issuance_date: self.issuance_date,
            expiration_date: self.expiration_date,
            claims: self.claims.clone(),
            status: match &self.status {
                Some(s) => Some(s.clone()),
                None => None,
            },
            proof_value: encoding::bytes_clone(self.proof_value.as_slice()),
        }
    }
}

/// A count, then each text as a field.
pub open spec fn list_bytes(v: Seq<Seq<char>>) -> Seq<u8> {
    encoding::le64(v.len() as u64) + encoding::text_fields(v)
}

/// A presence byte, then the list where there is one.
pub open spec fn opt_list_bytes(v: Option<Seq<Seq<char>>>) -> Seq<u8> {
    match v {
        Some(x) => seq![1u8] + list_bytes(x),
        None => seq![0u8],
    }
}

/// A presence byte, then the number where there is one.
pub open spec fn opt_u32_bytes(v: Option<u32>) -> Seq<u8> {
    match v {
        Some(x) => seq![1u8] + encoding::le32(x),
        None => seq![0u8],
    }
}

/// Each gate as its kind and tool.
pub open spec fn gate_bytes(v: Seq<GateView>) -> Seq<u8>
    decreases v.len(),
{
    if v.len() == 0 {
        seq![]
    } else {
        gate_bytes(v.drop_last()) + encoding::text_field(v.last().kind) + encoding::text_field(
            v.last().tool,
        )
    }
}

/// The bytes of claims.
pub open spec fn claims_bytes(c: ClaimsView) -> Seq<u8> {
    list_bytes(c.tools) + opt_list_bytes(c.resources) + opt_u32_bytes(c.budget_usd)
        + encoding::le32(c.max_delegation_depth) + encoding::le64(c.valid_for_secs)
        + seq![c.autonomy_level] + encoding::le64(c.token_ttl_ceiling_secs) + (
    match c.on_behalf_of {
        Some(a) => seq![1u8] + encoding::text_field(a.principal_did) + list_bytes(
            a.resource_authority,
        ),
        None => seq![0u8],
    }) + encoding::le64(c.required_gates.len() as u64) + gate_bytes(c.required_gates)
}

/// The bytes of a credential without its identifier and proof.
pub open spec fn body_bytes(c: CredentialView) -> Seq<u8> {
    encoding::utf8("agentcreds-capability-credential-v1"@) + encoding::text_field(c.issuer)
        + encoding::text_field(c.subject) + seq![
        if c.format is W3cLinkedData {
            0u8
        } else {
            1u8
        },
    ] + encoding::le64_signed(time::second_of(c.issuance_date) as i64) + encoding::le32(
        (c.issuance_date % (time::NANOS_PER_SEC as int)) as u32,
    ) + encoding::le64_signed(time::second_of(c.expiration_date) as i64) + encoding::le32(
        (c.expiration_date % (time::NANOS_PER_SEC as int)) as u32,
    ) + (match c.status {
        Some(s) => seq![1u8] + encoding::text_field(s.0) + encoding::le64(s.1),
        None => seq![0u8],
    }) + claims_bytes(c.claims)
}

/// The identifier of a credential: a digest of its body.
pub open spec fn derived_id(c: CredentialView) -> Seq<char> {
    "urn:agentcreds:vc:"@ + crypto::hex_text(crypto::sha256_digest(body_bytes(c)))
}

/// The digest an issuer signs: of the identifier and the body.
pub open spec fn credential_digest(c: CredentialView) -> Seq<u8> {
    crypto::sha256_digest(encoding::text_field(c.id) + body_bytes(c))
}

/// What verifying a credential against an anchor gives.
pub open spec fn credential_verifies(
    c: CredentialView,
    anchor_did: Seq<char>,
    anchor_key: KeyView,
    check_expiry: bool,
    now: int,
) -> Result<(), ErrorView> {
    if c.issuer != anchor_did {
        Err(ErrorView::IssuerMismatch { expected: anchor_did, got: c.issuer })
    } else if did::key_verifies(anchor_key, credential_digest(c), c.proof_value) is Err {
        Err(signed::bad_proof("credential signature does not verify"@))
    } else if check_expiry && now > c.expiration_date {
        Err(ErrorView::CredentialExpired { expired_at: time::rfc3339_text(c.expiration_date) })
    } else {
        Ok(())
    }
}

fn put_list(out: &mut Vec<u8>, v: &Vec<String>)
    ensures
        final(out)@ == old(out)@ + list_bytes(text::views(v@)),
{
    let ghost before = out@;
    encoding::put_u64(out, v.len() as u64);
    encoding::put_texts(out, v);
    assert(out@ =~= before + list_bytes(text::views(v@)));
}

fn put_gates(out: &mut Vec<u8>, v: &Vec<Gate>)
    ensures
        final(out)@ == old(out)@ + gate_bytes(approval::gate_views(v@)),
{
    let ghost before = out@;
    assert(approval::gate_views(v@.take(0)) =~= Seq::<GateView>::empty());
    for i in 0..v.len()
        invariant
            out@ == before + gate_bytes(approval::gate_views(v@.take(i as int))),
    {
        encoding::put_text(out, v[i].kind.as_str());
        encoding::put_text(out, v[i].tool.as_str());
        proof {
            let done = approval::gate_views(v@.take(i as int));
            let next = approval::gate_views(v@.take(i + 1));
            assert(next =~= done.push(v@[i as int]@));
            assert(next.drop_last() =~= done);
            assert(out@ =~= before + gate_bytes(next));
        }
    }
    assert(v@.take(v@.len() as int) =~= v@);
}

fn claims_encoding(c: &CapabilityClaims) -> (r: Vec<u8>)
    ensures
        r@ == claims_bytes(c@),
{
    let mut m: Vec<u8> = Vec::new();
    let out = &mut m;
    put_list(out, &c.tools);
    assert(out@ =~= list_bytes(c@.tools));
    match &c.resources {
        Some(v) => {
            let ghost b = out@;
            out.push(1u8);
            put_list(out, v);
            assert(out@ =~= b + opt_list_bytes(c@.resources));
        },
        None => {
            let ghost b = out@;
            out.push(0u8);
            assert(out@ =~= b + opt_list_bytes(c@.resources));
        },
    }
    match c.budget_usd {
        Some(n) => {
            let ghost b = out@;
            out.push(1u8);
            encoding::put_u32(out, n);
            assert(out@ =~= b + opt_u32_bytes(c.budget_usd));
        },
        None => {
            let ghost b = out@;
            out.push(0u8);
            assert(out@ =~= b + opt_u32_bytes(c.budget_usd));
        },
    }
    encoding::put_u32(out, c.max_delegation_depth);
    encoding::put_u64(out, c.valid_for_secs);
    let ghost b = out@;
    out.push(c.autonomy_level);
    assert(out@ =~= b + seq![c.autonomy_level]);
    encoding::put_u64(out, c.token_ttl_ceiling_secs);
    let ghost b = out@;
    let ghost obo = match c@.on_behalf_of {
        Some(a) => seq![1u8] + encoding::text_field(a.principal_did) + list_bytes(
            a.resource_authority,
        ),
        None => seq![0u8],
    };
    match &c.on_behalf_of {
        Some(a) => {
            out.push(1u8);
            encoding::put_text(out, a.principal_did.as_str());
            put_list(out, &a.resource_authority);
            assert(out@ =~= b + obo);
        },
        None => {
            out.push(0u8);
            assert(out@ =~= b + obo);
        },
    }
    encoding::put_u64(out, c.required_gates.len() as u64);
    put_gates(out, &c.required_gates);
    m
}

fn put_time(out: &mut Vec<u8>, t: Timestamp)
    ensures
        final(out)@ == old(out)@ + encoding::le64_signed(time::second_of(t@) as i64)
            + encoding::le32((t@ % (time::NANOS_PER_SEC as int)) as u32),
{
    encoding::put_i64(out, t.timestamp());
    encoding::put_u32(out, t.subsec_nanos());
}

/// Whether a credential, signed or not, is the one for claims about a subject.
pub open spec fn made_of(
    c: CredentialView,
    issuer_did: Seq<char>,
    subject_did: Seq<char>,
    claims: ClaimsView,
    status: Option<CredentialStatus>,
    format: CredentialFormat,
    now: int,
) -> bool {
    &&& c.issuer == issuer_did
    &&& c.subject == subject_did
    &&& c.format == format
    &&& c.claims == claims
    &&& c.status == (match status {
        Some(s) => Some((s.list@, s.index)),
        None => None,
    })
    &&& c.issuance_date == now
    &&& c.expiration_date == time::later_by(now, claims.valid_for_secs as int)
    &&& c.id == derived_id(c)
}

/// Whether issuing a credential can give a result: an error for claims that cannot be issued,
/// and otherwise what signing the credential gives. A software anchor's signature verifies.
pub open spec fn issue_outcome(
    anchor: TrustAnchor,
    subject_did: Seq<char>,
    claims: ClaimsView,
    status: Option<CredentialStatus>,
    format: CredentialFormat,
    now: int,
    r: Result<CapabilityCredential, AgentCredsError>,
) -> bool {
    match claims_error(claims) {
        Some(e) => r is Err && r->Err_0@ == e,
        None => match r {
            Ok(c) => {
                &&& made_of(c@, anchor.did_text(), subject_did, claims, status, format, now)
                &&& exists|sig: Result<Vec<u8>, AgentCredsError>|
                    #[trigger] anchor.may_sign(credential_digest(c@), sig) && sig is Ok
                        && sig->Ok_0@ == c@.proof_value
                &&& anchor.in_software() ==> did::key_verifies(
                    anchor.key(),
                    credential_digest(c@),
                    c@.proof_value,
                ) is Ok
            },
            Err(e) => {
                &&& !(anchor.in_software() && anchor.key().algorithm is Ed25519)
                &&& exists|c: CredentialView|
                    made_of(c, anchor.did_text(), subject_did, claims, status, format, now)
                        && anchor.may_sign(
                        #[trigger] credential_digest(c),
                        Err::<Vec<u8>, AgentCredsError>(e),
                    )
            },
        },
    }
}

impl CapabilityCredential {
    fn body(&self) -> (r: Vec<u8>)
        ensures
            r@ == body_bytes(self@),
    {
        let mut m: Vec<u8> = Vec::new();
        encoding::put_bytes(&mut m, "agentcreds-capability-credential-v1".as_bytes());
        assert(m@ =~= encoding::utf8("agentcreds-capability-credential-v1"@));
        encoding::put_text(&mut m, self.issuer.as_str());
        encoding::put_text(&mut m, self.subject.as_str());
        let ghost b = m@;
        let tag: u8 = match self.format {
            CredentialFormat::W3cLinkedData => 0,
            CredentialFormat::SdJwtVc => 1,
        };
        m.push(tag);
        assert(m@ =~= b + seq![tag]);
        put_time(&mut m, self.issuance_date);
        put_time(&mut m, self.expiration_date);
        let ghost b = m@;
        let ghost st = match self@.status {
            Some(s) => seq![1u8] + encoding::text_field(s.0) + encoding::le64(s.1),
            None => seq![0u8],
        };
        match &self.status {
            Some(s) => {
                m.push(1u8);
                encoding::put_text(&mut m, s.list.as_str());
                encoding::put_u64(&mut m, s.index);
                assert(m@ =~= b + st);
            },
            None => {
                m.push(0u8);
                assert(m@ =~= b + st);
            },
        }
        let claims = claims_encoding(&self.claims);
        encoding::put_bytes(&mut m, claims.as_slice());
        m
    }

    fn digest(&self) -> (r: Vec<u8>)
        ensures
            r@ == credential_digest(self@),
    {
        let mut m: Vec<u8> = Vec::new();
        encoding::put_text(&mut m, self.id.as_str());
        let body = self.body();
        encoding::put_bytes(&mut m, body.as_slice());
        assert(m@ =~= encoding::text_field(self@.id) + body_bytes(self@));
        crypto::sha256(m.as_slice())
    }

    /// Issue a W3C credential over `claims` for `subject_did`, valid from now.
    ///
    /// # Errors
    /// `OutOfBounds` for claims that cannot be issued; whatever the anchor's signer returns.
    pub fn issue(
        anchor: &TrustAnchor,
        subject_did: &str,
        claims: CapabilityClaims,
        status: Option<CredentialStatus>,
    ) -> (r: Result<Self, AgentCredsError>)
        ensures
            exists|now: int| #[trigger]
                issue_outcome(
                    *anchor,
                    subject_did@,
                    claims@,
                    status,
                    CredentialFormat::W3cLinkedData,
                    now,
                    r,
                ),
    {
        Self::issue_at(
            anchor,
            subject_did,
            claims,
            status,
            CredentialFormat::W3cLinkedData,
            Timestamp::now(),
        )
    }

    /// A credential that is yet to be signed.
    fn drafted(
        issuer_did: &str,
        subject_did: &str,
        claims: CapabilityClaims,
        status: Option<CredentialStatus>,
        format: CredentialFormat,
        now: Timestamp,
    ) -> (c: Self)
        ensures
            made_of(c@, issuer_did@, subject_did@, claims@, status, format, now@),
    {
        let expiration_date = now.plus_secs(claims.valid_for_secs);
        let mut c = CapabilityCredential {
            id: String::new(),
            issuer: issuer_did.to_owned(),
            subject: subject_did.to_owned(),
            format,
            issuance_date: now,
            expiration_date,
            claims,
            status,
            proof_value: Vec::new(),
        };
        let ghost unnamed = c@;
        let body = c.body();
        let mut id = "urn:agentcreds:vc:".to_owned();
        id.append(crypto::hex_encode(crypto::sha256(body.as_slice()).as_slice()).as_str());
        c.id = id;
        assert(body_bytes(c@) == body_bytes(unnamed));
        c
    }

    /// The credential with the anchor's signature over it.
    fn signed(self, anchor: &TrustAnchor) -> (r: Result<Self, AgentCredsError>)
        ensures
            match r {
                Ok(c) => {
                    &&& c@ == (CredentialView { proof_value: c@.proof_value, ..self@ })
                    &&& credential_digest(c@) == credential_digest(self@)
                    &&& exists|sig: Result<Vec<u8>, AgentCredsError>|
                        #[trigger] anchor.may_sign(credential_digest(c@), sig) && sig is Ok
                            && sig->Ok_0@ == c@.proof_value
                },
                Err(e) => anchor.may_sign(
                    credential_digest(self@),
                    Err::<Vec<u8>, AgentCredsError>(e),
                ),
            },
            anchor.in_software() && anchor.key().algorithm is Ed25519 ==> r is Ok,
            anchor.in_software() && r is Ok ==> did::key_verifies(
                anchor.key(),
                credential_digest(r->Ok_0@),
                r->Ok_0@.proof_value,
            ) is Ok,
    {
        let digest = self.digest();
        let ghost before = self@;
        let answer = anchor.sign(digest.as_slice());
        let ghost given = answer;
        match answer {
            Ok(s) => {
                let mut c = self;
                c.proof_value = s;
                assert(body_bytes(c@) == body_bytes(before));
                assert(anchor.may_sign(credential_digest(c@), given));
                Ok(c)
            },
            Err(e) => Err(e),
        }
    }

    /// Issue a credential in a format, valid from `now`.
    ///
    /// # Errors
    /// `OutOfBounds` for claims that cannot be issued; whatever the anchor's signer returns.
    pub fn issue_at(
        anchor: &TrustAnchor,
        subject_did: &str,
        claims: CapabilityClaims,
        status: Option<CredentialStatus>,
        format: CredentialFormat,
        now: Timestamp,
    ) -> (r: Result<Self, AgentCredsError>)
        ensures
            issue_outcome(*anchor, subject_did@, claims@, status, format, now@, r),
    {
        match claims.validate() {
            Ok(_) => {},
            Err(e) => {
                return Err(e);
            },
        }
        let draft = Self::drafted(anchor.did(), subject_did, claims, status, format, now);
        draft.signed(anchor)
    }

    /// DID of the agent the credential is about.
    pub fn subject_did(&self) -> (r: &str)
        ensures
            r@ == self@.subject,
    {
        self.subject.as_str()
    }

    /// What the credential grants.
    pub fn claims(&self) -> (r: &CapabilityClaims)
        ensures
            r@ == self@.claims,
    {
        &self.claims
    }

    /// When the credential expires.
    pub fn expiration_date(&self) -> (r: Timestamp)
        ensures
            r@ == self@.expiration_date,
    {
        self.expiration_date
    }

    /// Whether the credential is not past its expiry at `now`.
    pub fn is_valid_at(&self, now: Timestamp) -> (r: bool)
        ensures
            r == (now@ <= self@.expiration_date),
    {
        !now.is_after(&self.expiration_date)
    }

    /// Verify the credential against an anchor as of `now`: its issuer, its signature, and
    /// where asked, its expiry.
    ///
    /// # Errors
    /// `IssuerMismatch`, `InvalidVcProof` or `CredentialExpired`.
    pub fn verify_at(&self, anchor: &TrustAnchor, check_expiry: bool, now: Timestamp) -> (r: Result<
        (),
        AgentCredsError,
    >)
        ensures
            did::unit_view(r) == credential_verifies(
                self@,
                anchor.did_text(),
                anchor.key(),
                check_expiry,
                now@,
            ),
    {
        if !text::str_eq(self.issuer.as_str(), anchor.did()) {
            return Err(
                AgentCredsError::IssuerMismatch {
                    expected: anchor.did().to_owned(),
                    got: self.issuer.clone(),
                },
            );
        }
        if anchor.verify_signature(self.digest().as_slice(), self.proof_value.as_slice()).is_err() {
            return Err(signed::proof_error("credential signature does not verify".to_owned()));
        }
        if check_expiry && now.is_after(&self.expiration_date) {
            return Err(
                AgentCredsError::CredentialExpired {
                    expired_at: self.expiration_date.to_rfc3339(),
                },
            );
        }
        Ok(())
    }

    /// Verify the credential against an anchor at the current time.
    ///
    /// # Errors
    /// As [`CapabilityCredential::verify_at`].
    pub fn verify(&self, anchor: &TrustAnchor, check_expiry: bool) -> (r: Result<
        (),
        AgentCredsError,
    >)
        ensures
            exists|now: int|
                did::unit_view(r) == #[trigger] credential_verifies(
                    self@,
                    anchor.did_text(),
                    anchor.key(),
                    check_expiry,
                    now,
                ),
    {
        let now = Timestamp::now();
        self.verify_at(anchor, check_expiry, now)
    }
}

// -- What an accepted credential shows --------------------------------------------------------------

/// A credential is accepted exactly where it names the anchor as its issuer, its proof verifies under
/// the anchor's key over its digest, and, where expiry is asked about, it has not expired. Otherwise
/// the first of these that fails gives the error.
pub proof fn an_accepted_credential_is_signed_by_its_anchor(
    c: CredentialView,
    anchor_did: Seq<char>,
    anchor_key: KeyView,
    check_expiry: bool,
    now: int,
)
    ensures
        credential_verifies(c, anchor_did, anchor_key, check_expiry, now) is Ok <==> {
            &&& c.issuer == anchor_did
            &&& did::key_verifies(anchor_key, credential_digest(c), c.proof_value) is Ok
            &&& check_expiry ==> now <= c.expiration_date
        },
        ({
            let r = credential_verifies(c, anchor_did, anchor_key, check_expiry, now);
            let signed = did::key_verifies(anchor_key, credential_digest(c), c.proof_value) is Ok;
            &&& c.issuer != anchor_did ==> r is Err && r->Err_0 is IssuerMismatch
            &&& c.issuer == anchor_did && !signed ==> r is Err && r->Err_0 is InvalidVcProof
            &&& c.issuer == anchor_did && signed && r is Err ==> r->Err_0 is CredentialExpired
        }),
{
}

/// Whether a list of texts fits the machine.
pub open spec fn list_fits(v: Seq<Seq<char>>) -> bool {
    &&& v.len() <= u64::MAX
    &&& forall|i: int| 0 <= i < v.len() ==> encoding::utf8(#[trigger] v[i]).len() <= u64::MAX
}

/// Whether claims fit the machine.
pub open spec fn claims_fit(c: ClaimsView) -> bool {
    &&& list_fits(c.tools)
    &&& c.resources is Some ==> list_fits(c.resources->0)
    &&& c.on_behalf_of is Some ==> list_fits(c.on_behalf_of->0.resource_authority)
        && encoding::utf8(c.on_behalf_of->0.principal_did).len() <= u64::MAX
    &&& c.required_gates.len() <= u64::MAX
    &&& forall|i: int|
        0 <= i < c.required_gates.len() ==> encoding::utf8(
            (#[trigger] c.required_gates[i]).kind,
        ).len() <= u64::MAX && encoding::utf8(c.required_gates[i].tool).len() <= u64::MAX
}

/// Whether a credential fits the machine.
pub open spec fn credential_fits(c: CredentialView) -> bool {
    &&& encoding::utf8(c.id).len() <= u64::MAX
    &&& encoding::utf8(c.issuer).len() <= u64::MAX
    &&& encoding::utf8(c.subject).len() <= u64::MAX
    &&& time::time_in_range(c.issuance_date)
    &&& time::time_in_range(c.expiration_date)
    &&& c.status is Some ==> encoding::utf8((c.status->0).0).len() <= u64::MAX
    &&& claims_fit(c.claims)
}

proof fn lemma_list_prefix(a: Seq<Seq<char>>, b: Seq<Seq<char>>, x: Seq<u8>, y: Seq<u8>)
    requires
        list_fits(a),
        list_fits(b),
        list_bytes(a) + x == list_bytes(b) + y,
    ensures
        a == b,
        x == y,
{
    let (m, n) = (a.len() as u64, b.len() as u64);
    let (ta, tb) = (encoding::text_fields(a), encoding::text_fields(b));
    encoding::lemma_assoc(encoding::le64(m), ta, x);
    encoding::lemma_assoc(encoding::le64(n), tb, y);
    encoding::lemma_le64_prefix(m, n, ta + x, tb + y);
    encoding::lemma_text_fields_prefix(a, b, x, y);
}

proof fn lemma_opt_list_prefix(
    a: Option<Seq<Seq<char>>>,
    b: Option<Seq<Seq<char>>>,
    x: Seq<u8>,
    y: Seq<u8>,
)
    requires
        a is Some ==> list_fits(a->0),
        b is Some ==> list_fits(b->0),
        opt_list_bytes(a) + x == opt_list_bytes(b) + y,
    ensures
        a == b,
        x == y,
{
    let (l, r) = (opt_list_bytes(a) + x, opt_list_bytes(b) + y);
    assert(l[0] == r[0]);
    match (a, b) {
        (Some(p), Some(q)) => {
            assert(l.skip(1) =~= list_bytes(p) + x);
            assert(r.skip(1) =~= list_bytes(q) + y);
            lemma_list_prefix(p, q, x, y);
        },
        (None, None) => {
            assert(l.skip(1) =~= x);
            assert(r.skip(1) =~= y);
        },
        (Some(p), None) => {
            assert(l[0] == 1u8 && r[0] == 0u8);
        },
        (None, Some(q)) => {
            assert(l[0] == 0u8 && r[0] == 1u8);
        },
    }
}

proof fn lemma_opt_u32_prefix(a: Option<u32>, b: Option<u32>, x: Seq<u8>, y: Seq<u8>)
    requires
        opt_u32_bytes(a) + x == opt_u32_bytes(b) + y,
    ensures
        a == b,
        x == y,
{
    let (l, r) = (opt_u32_bytes(a) + x, opt_u32_bytes(b) + y);
    assert(l[0] == r[0]);
    match (a, b) {
        (Some(p), Some(q)) => {
            assert(l.skip(1) =~= encoding::le32(p) + x);
            assert(r.skip(1) =~= encoding::le32(q) + y);
            encoding::lemma_le32_prefix(p, q, x, y);
        },
        (None, None) => {
            assert(l.skip(1) =~= x);
            assert(r.skip(1) =~= y);
        },
        (Some(p), None) => {
            assert(l[0] == 1u8 && r[0] == 0u8);
        },
        (None, Some(q)) => {
            assert(l[0] == 0u8 && r[0] == 1u8);
        },
    }
}

spec fn authorization_bytes(o: Option<AuthorizationView>) -> Seq<u8> {
    match o {
        Some(a) => seq![1u8] + encoding::text_field(a.principal_did) + list_bytes(
            a.resource_authority,
        ),
        None => seq![0u8],
    }
}

proof fn lemma_authorization_prefix(
    a: Option<AuthorizationView>,
    b: Option<AuthorizationView>,
    x: Seq<u8>,
    y: Seq<u8>,
)
    requires
        a is Some ==> list_fits(a->0.resource_authority) && encoding::utf8(
            a->0.principal_did,
        ).len() <= u64::MAX,
        b is Some ==> list_fits(b->0.resource_authority) && encoding::utf8(
            b->0.principal_did,
        ).len() <= u64::MAX,
        authorization_bytes(a) + x == authorization_bytes(b) + y,
    ensures
        a == b,
        x == y,
{
    let (l, r) = (authorization_bytes(a) + x, authorization_bytes(b) + y);
    assert(l[0] == r[0]);
    match (a, b) {
        (Some(p), Some(q)) => {
            let (lp, lq) = (list_bytes(p.resource_authority), list_bytes(q.resource_authority));
            assert(l.skip(1) =~= encoding::text_field(p.principal_did) + (lp + x));
            assert(r.skip(1) =~= encoding::text_field(q.principal_did) + (lq + y));
            encoding::lemma_text_field_prefix(p.principal_did, q.principal_did, lp + x, lq + y);
            lemma_list_prefix(p.resource_authority, q.resource_authority, x, y);
            assert(p == q);
        },
        (None, None) => {
            assert(l.skip(1) =~= x);
            assert(r.skip(1) =~= y);
        },
        (Some(p), None) => {
            assert(l[0] == 1u8 && r[0] == 0u8);
        },
        (None, Some(q)) => {
            assert(l[0] == 0u8 && r[0] == 1u8);
        },
    }
}

proof fn lemma_gates_prefix(a: Seq<GateView>, b: Seq<GateView>, x: Seq<u8>, y: Seq<u8>)
    requires
        a.len() == b.len(),
        forall|i: int|
            0 <= i < a.len() ==> encoding::utf8((#[trigger] a[i]).kind).len() <= u64::MAX
                && encoding::utf8(a[i].tool).len() <= u64::MAX,
        forall|i: int|
            0 <= i < b.len() ==> encoding::utf8((#[trigger] b[i]).kind).len() <= u64::MAX
                && encoding::utf8(b[i].tool).len() <= u64::MAX,
        gate_bytes(a) + x == gate_bytes(b) + y,
    ensures
        a == b,
        x == y,
    decreases a.len(),
{
    if a.len() == 0 {
        assert(gate_bytes(a) + x =~= x);
        assert(gate_bytes(b) + y =~= y);
        assert(a =~= b);
    } else {
        let (p, q) = (a.drop_last(), b.drop_last());
        let (ga, gb) = (a.last(), b.last());
        let (ka, kb) = (encoding::text_field(ga.kind), encoding::text_field(gb.kind));
        let (ta, tb) = (encoding::text_field(ga.tool), encoding::text_field(gb.tool));
        assert(gate_bytes(a) + x =~= gate_bytes(p) + (ka + (ta + x)));
        assert(gate_bytes(b) + y =~= gate_bytes(q) + (kb + (tb + y)));
        assert forall|i: int| 0 <= i < p.len() implies encoding::utf8((#[trigger] p[i]).kind).len()
            <= u64::MAX && encoding::utf8(p[i].tool).len() <= u64::MAX by {
            assert(a[i] == p[i]);
        }
        assert forall|i: int| 0 <= i < q.len() implies encoding::utf8((#[trigger] q[i]).kind).len()
            <= u64::MAX && encoding::utf8(q[i].tool).len() <= u64::MAX by {
            assert(b[i] == q[i]);
        }
        lemma_gates_prefix(p, q, ka + (ta + x), kb + (tb + y));
        assert(a[a.len() - 1] == ga && b[b.len() - 1] == gb);
        encoding::lemma_text_field_prefix(ga.kind, gb.kind, ta + x, tb + y);
        encoding::lemma_text_field_prefix(ga.tool, gb.tool, x, y);
        assert(ga == gb);
        assert(a =~= p.push(ga));
        assert(b =~= q.push(gb));
    }
}

spec fn late_claims_bytes(c: ClaimsView) -> Seq<u8> {
    encoding::le64(c.token_ttl_ceiling_secs) + (authorization_bytes(c.on_behalf_of) + (
    encoding::le64(c.required_gates.len() as u64) + gate_bytes(c.required_gates)))
}

spec fn nested_claims_bytes(c: ClaimsView) -> Seq<u8> {
    list_bytes(c.tools) + (opt_list_bytes(c.resources) + (opt_u32_bytes(c.budget_usd) + (
    encoding::le32(c.max_delegation_depth) + (encoding::le64(c.valid_for_secs) + (
    seq![c.autonomy_level] + late_claims_bytes(c))))))
}

proof fn lemma_claims_nested(c: ClaimsView)
    ensures
        claims_bytes(c) == nested_claims_bytes(c),
{
    let p1 = list_bytes(c.tools);
    let p2 = opt_list_bytes(c.resources);
    let p3 = opt_u32_bytes(c.budget_usd);
    let p4 = encoding::le32(c.max_delegation_depth);
    let p5 = encoding::le64(c.valid_for_secs);
    let p6 = seq![c.autonomy_level];
    let p7 = encoding::le64(c.token_ttl_ceiling_secs);
    let p8 = authorization_bytes(c.on_behalf_of);
    let p9 = encoding::le64(c.required_gates.len() as u64);
    let p10 = gate_bytes(c.required_gates);
    encoding::lemma_assoc(p1 + p2 + p3 + p4 + p5 + p6 + p7 + p8, p9, p10);
    encoding::lemma_assoc(p1 + p2 + p3 + p4 + p5 + p6 + p7, p8, p9 + p10);
    encoding::lemma_assoc(p1 + p2 + p3 + p4 + p5 + p6, p7, p8 + (p9 + p10));
    encoding::lemma_assoc(p1 + p2 + p3 + p4 + p5, p6, p7 + (p8 + (p9 + p10)));
    encoding::lemma_assoc_six(p1, p2, p3, p4, p5, p6 + (p7 + (p8 + (p9 + p10))));
}

proof fn lemma_claims(a: ClaimsView, b: ClaimsView)
    requires
        claims_fit(a),
        claims_fit(b),
        claims_bytes(a) == claims_bytes(b),
    ensures
        a == b,
{
    lemma_claims_nested(a);
    lemma_claims_nested(b);
    let none = Seq::<u8>::empty();
    let (g_a, g_b) = (gate_bytes(a.required_gates), gate_bytes(b.required_gates));
    let (n_a, n_b) = (a.required_gates.len() as u64, b.required_gates.len() as u64);
    let (o_a, o_b) = (
        encoding::le64(n_a) + g_a,
        encoding::le64(n_b) + g_b,
    );
    let (t_a, t_b) = (
        authorization_bytes(a.on_behalf_of) + o_a,
        authorization_bytes(b.on_behalf_of) + o_b,
    );
    let (l_a, l_b) = (late_claims_bytes(a), late_claims_bytes(b));
    let (u_a, u_b) = (seq![a.autonomy_level] + l_a, seq![b.autonomy_level] + l_b);
    let (v_a, v_b) = (
        encoding::le64(a.valid_for_secs) + u_a,
        encoding::le64(b.valid_for_secs) + u_b,
    );
    let (d_a, d_b) = (
        encoding::le32(a.max_delegation_depth) + v_a,
        encoding::le32(b.max_delegation_depth) + v_b,
    );
    let (b_a, b_b) = (opt_u32_bytes(a.budget_usd) + d_a, opt_u32_bytes(b.budget_usd) + d_b);
    let (r_a, r_b) = (opt_list_bytes(a.resources) + b_a, opt_list_bytes(b.resources) + b_b);
    lemma_list_prefix(a.tools, b.tools, r_a, r_b);
    lemma_opt_list_prefix(a.resources, b.resources, b_a, b_b);
    lemma_opt_u32_prefix(a.budget_usd, b.budget_usd, d_a, d_b);
    encoding::lemma_le32_prefix(a.max_delegation_depth, b.max_delegation_depth, v_a, v_b);
    encoding::lemma_le64_prefix(a.valid_for_secs, b.valid_for_secs, u_a, u_b);
    encoding::lemma_split(seq![a.autonomy_level], seq![b.autonomy_level], l_a, l_b);
    assert(seq![a.autonomy_level][0] == seq![b.autonomy_level][0]);
    encoding::lemma_le64_prefix(a.token_ttl_ceiling_secs, b.token_ttl_ceiling_secs, t_a, t_b);
    lemma_authorization_prefix(a.on_behalf_of, b.on_behalf_of, o_a, o_b);
    encoding::lemma_le64_prefix(n_a, n_b, g_a, g_b);
    assert(g_a + none =~= g_a);
    assert(g_b + none =~= g_b);
    lemma_gates_prefix(a.required_gates, b.required_gates, none, none);
}

spec fn status_bytes(s: Option<(Seq<char>, u64)>) -> Seq<u8> {
    match s {
        Some(s) => seq![1u8] + encoding::text_field(s.0) + encoding::le64(s.1),
        None => seq![0u8],
    }
}

proof fn lemma_status_prefix(
    a: Option<(Seq<char>, u64)>,
    b: Option<(Seq<char>, u64)>,
    x: Seq<u8>,
    y: Seq<u8>,
)
    requires
        a is Some ==> encoding::utf8((a->0).0).len() <= u64::MAX,
        b is Some ==> encoding::utf8((b->0).0).len() <= u64::MAX,
        status_bytes(a) + x == status_bytes(b) + y,
    ensures
        a == b,
        x == y,
{
    let (l, r) = (status_bytes(a) + x, status_bytes(b) + y);
    assert(l[0] == r[0]);
    match (a, b) {
        (Some(p), Some(q)) => {
            assert(l.skip(1) =~= encoding::text_field(p.0) + (encoding::le64(p.1) + x));
            assert(r.skip(1) =~= encoding::text_field(q.0) + (encoding::le64(q.1) + y));
            encoding::lemma_text_field_prefix(
                p.0,
                q.0,
                encoding::le64(p.1) + x,
                encoding::le64(q.1) + y,
            );
            encoding::lemma_le64_prefix(p.1, q.1, x, y);
        },
        (None, None) => {
            assert(l.skip(1) =~= x);
            assert(r.skip(1) =~= y);
        },
        (Some(p), None) => {
            assert(l[0] == 1u8 && r[0] == 0u8);
        },
        (None, Some(q)) => {
            assert(l[0] == 0u8 && r[0] == 1u8);
        },
    }
}

spec fn format_byte(f: CredentialFormat) -> u8 {
    if f is W3cLinkedData {
        0u8
    } else {
        1u8
    }
}

spec fn nested_body_bytes(c: CredentialView) -> Seq<u8> {
    encoding::utf8("agentcreds-capability-credential-v1"@) + (encoding::text_field(c.issuer) + (
    encoding::text_field(c.subject) + (seq![format_byte(c.format)] + (encoding::instant_bytes(
        c.issuance_date,
    ) + (encoding::instant_bytes(c.expiration_date) + (status_bytes(c.status) + claims_bytes(
        c.claims,
    )))))))
}

proof fn lemma_body_nested(c: CredentialView)
    ensures
        body_bytes(c) == nested_body_bytes(c),
{
    let per = time::NANOS_PER_SEC as int;
    let p1 = encoding::utf8("agentcreds-capability-credential-v1"@);
    let p2 = encoding::text_field(c.issuer);
    let p3 = encoding::text_field(c.subject);
    let p4 = seq![format_byte(c.format)];
    let p5 = encoding::le64_signed(time::second_of(c.issuance_date) as i64);
    let p6 = encoding::le32((c.issuance_date % per) as u32);
    let p7 = encoding::le64_signed(time::second_of(c.expiration_date) as i64);
    let p8 = encoding::le32((c.expiration_date % per) as u32);
    let p9 = status_bytes(c.status);
    let p10 = claims_bytes(c.claims);
    encoding::lemma_assoc(p1 + p2 + p3 + p4 + p5 + p6 + p7 + p8, p9, p10);
    encoding::lemma_assoc(p1 + p2 + p3 + p4 + p5 + p6, p7, p8);
    encoding::lemma_assoc(p1 + p2 + p3 + p4, p5, p6);
    encoding::lemma_assoc_six(p1, p2, p3, p4, p5 + p6, p7 + p8);
    let times = (p5 + p6) + (p7 + p8);
    let t5 = p1 + p2 + p3 + p4 + (p5 + p6);
    encoding::lemma_assoc(t5, p7 + p8, p9 + p10);
    encoding::lemma_assoc_six(p1, p2, p3, p4, p5 + p6, (p7 + p8) + (p9 + p10));
}

proof fn lemma_body(a: CredentialView, b: CredentialView)
    requires
        credential_fits(a),
        credential_fits(b),
        body_bytes(a) == body_bytes(b),
    ensures
        a == (CredentialView { id: a.id, proof_value: a.proof_value, ..b }),
{
    lemma_body_nested(a);
    lemma_body_nested(b);
    let d = encoding::utf8("agentcreds-capability-credential-v1"@);
    let (c_a, c_b) = (claims_bytes(a.claims), claims_bytes(b.claims));
    let (s_a, s_b) = (status_bytes(a.status) + c_a, status_bytes(b.status) + c_b);
    let (e_a, e_b) = (
        encoding::instant_bytes(a.expiration_date) + s_a,
        encoding::instant_bytes(b.expiration_date) + s_b,
    );
    let (i_a, i_b) = (
        encoding::instant_bytes(a.issuance_date) + e_a,
        encoding::instant_bytes(b.issuance_date) + e_b,
    );
    let (f_a, f_b) = (
        seq![format_byte(a.format)] + i_a,
        seq![format_byte(b.format)] + i_b,
    );
    let (u_a, u_b) = (
        encoding::text_field(a.subject) + f_a,
        encoding::text_field(b.subject) + f_b,
    );
    encoding::lemma_split(
        d,
        d,
        encoding::text_field(a.issuer) + u_a,
        encoding::text_field(b.issuer) + u_b,
    );
    encoding::lemma_text_field_prefix(a.issuer, b.issuer, u_a, u_b);
    encoding::lemma_text_field_prefix(a.subject, b.subject, f_a, f_b);
    encoding::lemma_split(seq![format_byte(a.format)], seq![format_byte(b.format)], i_a, i_b);
    assert(seq![format_byte(a.format)][0] == seq![format_byte(b.format)][0]);
    encoding::lemma_instant_prefix(a.issuance_date, b.issuance_date, e_a, e_b);
    encoding::lemma_instant_prefix(a.expiration_date, b.expiration_date, s_a, s_b);
    lemma_status_prefix(a.status, b.status, c_a, c_b);
    lemma_claims(a.claims, b.claims);
}

/// A credential's digest binds all that it says: credentials with one digest have the same
/// identifier, issuer, subject, format, dates, status and claims, unless SHA-256 fails on what is
/// hashed for the two. So a signature over one covers no other.
pub proof fn a_digest_binds_the_whole_credential(a: CredentialView, b: CredentialView)
    requires
        credential_fits(a),
        credential_fits(b),
        credential_digest(a) == credential_digest(b),
    ensures
        a == (CredentialView { proof_value: a.proof_value, ..b }) || crypto::breaks_on(
            set![
                encoding::text_field(a.id) + body_bytes(a),
                encoding::text_field(b.id) + body_bytes(b),
            ],
        ),
{
    let (x, y) = (
        encoding::text_field(a.id) + body_bytes(a),
        encoding::text_field(b.id) + body_bytes(b),
    );
    let inputs = set![x, y];
    if !crypto::breaks_on(inputs) {
        assert(inputs.contains(x) && inputs.contains(y));
        encoding::lemma_text_field_prefix(a.id, b.id, body_bytes(a), body_bytes(b));
        lemma_body(a, b);
    }
}

/// A derived identifier stands for one credential: those that were issued under one identifier say
/// the same, unless SHA-256 fails on the two.
pub proof fn a_derived_id_stands_for_one_credential(a: CredentialView, b: CredentialView)
    requires
        credential_fits(a),
        credential_fits(b),
        derived_id(a) == derived_id(b),
    ensures
        a == (CredentialView { id: a.id, proof_value: a.proof_value, ..b }) || crypto::breaks_on(
            set![body_bytes(a), body_bytes(b)],
        ),
{
    let inputs = set![body_bytes(a), body_bytes(b)];
    if !crypto::breaks_on(inputs) {
        assert(inputs.contains(body_bytes(a)) && inputs.contains(body_bytes(b)));
        let tag = "urn:agentcreds:vc:"@;
        let (g, h) = (crypto::sha256_digest(body_bytes(a)), crypto::sha256_digest(body_bytes(b)));
        let (s, t) = (tag + crypto::hex_text(g), tag + crypto::hex_text(h));
        assert(s.skip(tag.len() as int) =~= crypto::hex_text(g));
        assert(t.skip(tag.len() as int) =~= crypto::hex_text(h));
        crypto::lemma_hex_round_trip(g);
        crypto::lemma_hex_round_trip(h);
        lemma_body(a, b);
    }
}

/// A credential that an anchor with its own key issued is what was asked for: it names the anchor and
/// the subject, holds the claims, lasts as long as they say from the time of issue, and the anchor's
/// key accepts it until then.
pub proof fn an_issued_credential_is_what_was_asked_for(
    anchor: TrustAnchor,
    subject_did: Seq<char>,
    claims: ClaimsView,
    status: Option<CredentialStatus>,
    format: CredentialFormat,
    now: int,
    r: Result<CapabilityCredential, AgentCredsError>,
    later: int,
)
    requires
        issue_outcome(anchor, subject_did, claims, status, format, now, r),
        r is Ok,
        time::time_in_range(now + claims.valid_for_secs * time::NANOS_PER_SEC),
    ensures
        r->Ok_0@.issuer == anchor.did_text(),
        r->Ok_0@.subject == subject_did,
        r->Ok_0@.claims == claims,
        r->Ok_0@.format == format,
        r->Ok_0@.issuance_date == now,
        r->Ok_0@.expiration_date == now + claims.valid_for_secs * time::NANOS_PER_SEC,
        r->Ok_0@.status is Some == status is Some,
        status is Some ==> r->Ok_0@.status->0 == (status->0.list@, status->0.index),
        0 < claims.valid_for_secs <= MAX_VALID_FOR_SECS,
        anchor.in_software() && later <= r->Ok_0@.expiration_date ==> credential_verifies(
            r->Ok_0@,
            anchor.did_text(),
            anchor.key(),
            true,
            later,
        ) is Ok,
{
}

/// Claims can be issued exactly where they last for some time and for no more than the longest.
pub proof fn issuable_claims_last_for_a_while(c: ClaimsView)
    ensures
        claims_error(c) is None <==> 0 < c.valid_for_secs <= MAX_VALID_FOR_SECS,
        claims_error(c) is Some ==> claims_error(c)->0 is OutOfBounds,
{
}

} // verus!
