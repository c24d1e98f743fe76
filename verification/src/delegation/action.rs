//! The actions that agents ask to perform.

use vstd::prelude::*;
use vstd::string::*;
use crate::crypto;
use crate::encoding;
use crate::text;
use crate::time::Timestamp;

verus! {

/// An action an agent wants to perform - checked against the token scope.
#[derive(Debug)]
pub struct Action {
    /// The tool being invoked (e.g. `"tool:search"`).
    pub tool: String,
    /// Optional parameters (used in audit log, not evaluated in scope check).
    pub parameters: String,
    /// Timestamp of the action request.
    pub timestamp: Timestamp,
    /// The resource this call touches. When a token carries a resource allow-list, this
    /// must be present and permitted.
    pub resource: Option<String>,
    /// The principal DID this call is being made on behalf of, supplied from the
    /// enforcer's verified session.
    pub acting_for: Option<String>,
    /// What this call costs, in USD-cents, supplied by the enforcement point from its own
    /// pricing. `None` means unpriced; an unpriced action is denied under a capped token.
    pub cost: Option<u32>,
}

/// An action as mathematical values.
#[verifier::ext_equal]
pub struct ActionView {
    pub tool: Seq<char>,
    pub parameters: Seq<char>,
    pub timestamp: int,
    pub resource: Option<Seq<char>>,
    pub acting_for: Option<Seq<char>>,
    pub cost: Option<u32>,
}

impl View for Action {
    type V = ActionView;

    open spec fn view(&self) -> ActionView {
        ActionView {
            tool: self.tool@,
            parameters: self.parameters@,
            timestamp: self.timestamp@,
            resource: text::opt_view(self.resource),
            acting_for: text::opt_view(self.acting_for),
            cost: self.cost,
        }
    }
}

impl Clone for Action {
    fn clone(&self) -> (r: Self)
        ensures
            r@ == self@,
    {
        Action {
            tool: self.tool.clone(),
            parameters: self.parameters.clone(),
            timestamp: self.timestamp,
            resource: text::opt_clone(&self.resource),
            acting_for: text::opt_clone(&self.acting_for),
            cost: self.cost,
        }
    }
}

/// The bytes under [`Action::request_binding`]: the tool, its parameters and the resource.
pub open spec fn request_bytes(a: ActionView) -> Seq<u8> {
    encoding::utf8("agentcreds-action-binding-v1"@) + encoding::text_field(a.tool)
        + encoding::text_field(a.parameters) + encoding::opt_text_field(a.resource)
}

/// The bytes under [`Action::approval_binding`]: the tool, its parameters, the resource and
/// the principal acted for.
pub open spec fn approval_bytes(a: ActionView) -> Seq<u8> {
    encoding::utf8("agentcreds-approval-binding-v1"@) + encoding::text_field(a.tool)
        + encoding::text_field(a.parameters) + encoding::opt_text_field(a.resource)
        + encoding::opt_text_field(a.acting_for)
}

/// The binding of a request: the hexadecimal SHA-256 of its bytes.
pub open spec fn request_binding_of(a: ActionView) -> Seq<char> {
    crypto::hex_text(crypto::sha256_digest(request_bytes(a)))
}

/// The binding of an approval: the hexadecimal SHA-256 of its bytes.
pub open spec fn approval_binding_of(a: ActionView) -> Seq<char> {
    crypto::hex_text(crypto::sha256_digest(approval_bytes(a)))
}

impl Action {
    /// Create an action with the current timestamp.
    pub fn new(tool: &str, parameters: &str) -> (r: Self)
        ensures
            r@ == (ActionView {
                tool: tool@,
                parameters: parameters@,
                timestamp: r@.timestamp,
                resource: None,
                acting_for: None,
                cost: None,
            }),
    {
        Self::at(tool, parameters, Timestamp::now())
    }

    /// Create an action requested at `timestamp`.
    pub fn at(tool: &str, parameters: &str, timestamp: Timestamp) -> (r: Self)
        ensures
            r@ == (ActionView {
                tool: tool@,
                parameters: parameters@,
                timestamp: timestamp@,
                resource: None,
                acting_for: None,
                cost: None,
            }),
    {
        Action {
            tool: tool.to_owned(),
            parameters: parameters.to_owned(),
            timestamp,
            resource: None,
            acting_for: None,
            cost: None,
        }
    }

    /// Set the resource this action touches (builder style).
    #[must_use]
    pub fn on_resource(self, resource: &str) -> (r: Self)
        ensures
            r@ == (ActionView { resource: Some(resource@), ..self@ }),
    {
        Action { resource: Some(resource.to_owned()), ..self }
    }

    /// Set the principal DID this action is performed on behalf of (builder style).
    #[must_use]
    pub fn on_behalf_of(self, principal_did: &str) -> (r: Self)
        ensures
            r@ == (ActionView { acting_for: Some(principal_did@), ..self@ }),
    {
        Action { acting_for: Some(principal_did.to_owned()), ..self }
    }

    /// Price this action at `usd_cents` (builder style).
    #[must_use]
    pub fn with_cost(self, usd_cents: u32) -> (r: Self)
        ensures
            r@ == (ActionView { cost: Some(usd_cents), ..self@ }),
    {
        Action { cost: Some(usd_cents), ..self }
    }

    /// A stable content binding of the inputs that holder and verifier share: the tool,
    /// its parameters, and the resource it touches. The principal and the cost, which the
    /// verifier supplies, are left out.
    pub fn request_binding(&self) -> (r: String)
        ensures
            r@ == request_binding_of(self@),
    {
        let mut m: Vec<u8> = Vec::new();
        encoding::put_bytes(&mut m, "agentcreds-action-binding-v1".as_bytes());
        assert(m@ =~= encoding::utf8("agentcreds-action-binding-v1"@));
        encoding::put_text(&mut m, self.tool.as_str());
        encoding::put_text(&mut m, self.parameters.as_str());
        encoding::put_opt_text(&mut m, &self.resource);
        crypto::hex_encode(crypto::sha256(m.as_slice()).as_slice())
    }

    /// The content binding for execution-time human-authorization evidence: the operation,
    /// its parameters, the resource, and the principal acted for.
    pub fn approval_binding(&self) -> (r: String)
        ensures
            r@ == approval_binding_of(self@),
    {
        let mut m: Vec<u8> = Vec::new();
        encoding::put_bytes(&mut m, "agentcreds-approval-binding-v1".as_bytes());
        assert(m@ =~= encoding::utf8("agentcreds-approval-binding-v1"@));
        encoding::put_text(&mut m, self.tool.as_str());
        encoding::put_text(&mut m, self.parameters.as_str());
        encoding::put_opt_text(&mut m, &self.resource);
        encoding::put_opt_text(&mut m, &self.acting_for);
        crypto::hex_encode(crypto::sha256(m.as_slice()).as_slice())
    }
}

/// A text whose UTF-8 length fits in eight bytes, as that of every string held in memory
/// does.
pub open spec fn encodable(s: Seq<char>) -> bool {
    encoding::utf8(s).len() <= u64::MAX
}

/// The same for an optional text.
pub open spec fn encodable_opt(s: Option<Seq<char>>) -> bool {
    s is Some ==> encodable(s->0)
}

/// Actions with the same approval bytes agree in tool, parameters, resource and principal:
/// an approval for one principal never covers the same action for another.
pub proof fn approval_bytes_are_injective(a: ActionView, b: ActionView)
    requires
        encodable(a.tool) && encodable(a.parameters) && encodable_opt(a.resource)
            && encodable_opt(a.acting_for),
        encodable(b.tool) && encodable(b.parameters) && encodable_opt(b.resource)
            && encodable_opt(b.acting_for),
        approval_bytes(a) == approval_bytes(b),
    ensures
        a.tool == b.tool,
        a.parameters == b.parameters,
        a.resource == b.resource,
        a.acting_for == b.acting_for,
{
    let d = encoding::utf8("agentcreds-approval-binding-v1"@);
    let ra = encoding::opt_text_field(a.resource);
    let rb = encoding::opt_text_field(b.resource);
    let pa = encoding::opt_text_field(a.acting_for);
    let pb = encoding::opt_text_field(b.acting_for);
    let qa = encoding::text_field(a.parameters);
    let qb = encoding::text_field(b.parameters);
    let ta = encoding::text_field(a.tool) + (qa + (ra + pa));
    let tb = encoding::text_field(b.tool) + (qb + (rb + pb));
    assert(approval_bytes(a).skip(d.len() as int) =~= ta);
    assert(approval_bytes(b).skip(d.len() as int) =~= tb);
    encoding::lemma_text_field_prefix(a.tool, b.tool, qa + (ra + pa), qb + (rb + pb));
    encoding::lemma_text_field_prefix(a.parameters, b.parameters, ra + pa, rb + pb);
    encoding::lemma_opt_text_field_prefix(a.resource, b.resource, pa, pb);
    let none = Seq::<u8>::empty();
    assert(pa + none =~= pa);
    assert(pb + none =~= pb);
    encoding::lemma_opt_text_field_prefix(a.acting_for, b.acting_for, none, none);
}

/// Actions with the same request bytes agree in tool, parameters and resource.
pub proof fn request_bytes_are_injective(a: ActionView, b: ActionView)
    requires
        encodable(a.tool) && encodable(a.parameters) && encodable_opt(a.resource),
        encodable(b.tool) && encodable(b.parameters) && encodable_opt(b.resource),
        request_bytes(a) == request_bytes(b),
    ensures
        a.tool == b.tool,
        a.parameters == b.parameters,
        a.resource == b.resource,
{
    let d = encoding::utf8("agentcreds-action-binding-v1"@);
    let ra = encoding::opt_text_field(a.resource);
    let rb = encoding::opt_text_field(b.resource);
    let qa = encoding::text_field(a.parameters);
    let qb = encoding::text_field(b.parameters);
    assert(request_bytes(a).skip(d.len() as int) =~= encoding::text_field(a.tool) + (qa + ra));
    assert(request_bytes(b).skip(d.len() as int) =~= encoding::text_field(b.tool) + (qb + rb));
    encoding::lemma_text_field_prefix(a.tool, b.tool, qa + ra, qb + rb);
    encoding::lemma_text_field_prefix(a.parameters, b.parameters, ra, rb);
    let none = Seq::<u8>::empty();
    assert(ra + none =~= ra);
    assert(rb + none =~= rb);
    encoding::lemma_opt_text_field_prefix(a.resource, b.resource, none, none);
}

/// Neither the principal nor the cost enters a request binding: holder and verifier
/// compute the same one.
pub proof fn request_binding_ignores_verifier_inputs(
    a: ActionView,
    acting_for: Option<Seq<char>>,
    cost: Option<u32>,
    timestamp: int,
)
    ensures
        request_binding_of(ActionView { acting_for, cost, timestamp, ..a }) == request_binding_of(
            a,
        ),
{
}

/// Whether the texts of an action fit the machine.
pub open spec fn fits(a: ActionView) -> bool {
    encodable(a.tool) && encodable(a.parameters) && encodable_opt(a.resource) && encodable_opt(
        a.acting_for,
    )
}

/// An approval binding stands for one action: actions with one binding agree in tool, parameters,
/// resource and principal, unless SHA-256 fails on the two.
pub proof fn an_approval_binding_stands_for_one_action(a: ActionView, b: ActionView)
    requires
        fits(a),
        fits(b),
        approval_binding_of(a) == approval_binding_of(b),
    ensures
        (a.tool == b.tool && a.parameters == b.parameters && a.resource == b.resource
            && a.acting_for == b.acting_for) || crypto::breaks_on(
            set![approval_bytes(a), approval_bytes(b)],
        ),
{
    let inputs = set![approval_bytes(a), approval_bytes(b)];
    if !crypto::breaks_on(inputs) {
        assert(inputs.contains(approval_bytes(a)) && inputs.contains(approval_bytes(b)));
        crypto::lemma_hex_round_trip(crypto::sha256_digest(approval_bytes(a)));
        crypto::lemma_hex_round_trip(crypto::sha256_digest(approval_bytes(b)));
        approval_bytes_are_injective(a, b);
    }
}

/// A request binding stands for one request: actions with one binding agree in tool, parameters
/// and resource, unless SHA-256 fails on the two.
pub proof fn a_request_binding_stands_for_one_request(a: ActionView, b: ActionView)
    requires
        fits(a),
        fits(b),
        request_binding_of(a) == request_binding_of(b),
    ensures
        (a.tool == b.tool && a.parameters == b.parameters && a.resource == b.resource)
            || crypto::breaks_on(set![request_bytes(a), request_bytes(b)]),
{
    let inputs = set![request_bytes(a), request_bytes(b)];
    if !crypto::breaks_on(inputs) {
        assert(inputs.contains(request_bytes(a)) && inputs.contains(request_bytes(b)));
        crypto::lemma_hex_round_trip(crypto::sha256_digest(request_bytes(a)));
        crypto::lemma_hex_round_trip(crypto::sha256_digest(request_bytes(b)));
        request_bytes_are_injective(a, b);
    }
}

/// What an action is bound by does not depend on when it is asked for or what it costs: actions
/// that agree in tool, parameters, resource and principal have the same bindings.
pub proof fn bindings_depend_on_nothing_else(a: ActionView, b: ActionView)
    requires
        a.tool == b.tool,
        a.parameters == b.parameters,
        a.resource == b.resource,
    ensures
        request_binding_of(a) == request_binding_of(b),
        a.acting_for == b.acting_for ==> approval_binding_of(a) == approval_binding_of(b),
{
}

/// A request binding is never taken for an approval binding: the bytes under the two begin
/// differently, whatever the actions.
pub proof fn request_and_approval_bindings_are_apart(a: ActionView, b: ActionView)
    ensures
        request_bytes(a) != approval_bytes(b),
{
    reveal_strlit("agentcreds-action-binding-v1");
    reveal_strlit("agentcreds-approval-binding-v1");
    let da = encoding::utf8("agentcreds-action-binding-v1"@);
    let db = encoding::utf8("agentcreds-approval-binding-v1"@);
    vstd::utf8::is_ascii_chars_encode_utf8("agentcreds-action-binding-v1"@);
    vstd::utf8::is_ascii_chars_encode_utf8("agentcreds-approval-binding-v1"@);
    assert(request_bytes(a)[12] == da[12]);
    assert(approval_bytes(b)[12] == db[12]);
}

} // verus!
