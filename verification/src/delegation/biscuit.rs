//! What the crate takes from Biscuit: builders that collect facts and checks, signed tokens
//! made of blocks, and authorizers that evaluate them. Each is named by what it holds.

use vstd::prelude::*;
use crate::crypto;
use crate::delegation::datalog;
use crate::delegation::datalog::{BlockView, CheckView, FactView, PolicyView};
use crate::text;

verus! {

// -- Outside types --------------------------------------------------------------------------

/// Biscuit's builder of authority blocks.
#[verifier::external_type_specification]
#[verifier::external_body]
pub struct ExBiscuitBuilder(biscuit_auth::builder::BiscuitBuilder);

/// Biscuit's builder of further blocks.
#[verifier::external_type_specification]
#[verifier::external_body]
pub struct ExBlockBuilder(biscuit_auth::builder::BlockBuilder);

/// Biscuit's builder of authorizers.
#[verifier::external_type_specification]
#[verifier::external_body]
pub struct ExAuthorizerBuilder(biscuit_auth::builder::AuthorizerBuilder);

/// A Biscuit token whose signatures have been made or checked.
#[verifier::external_type_specification]
#[verifier::external_body]
pub struct ExBiscuit(biscuit_auth::Biscuit);

/// A request for a block signed by a third party.
#[verifier::external_type_specification]
#[verifier::external_body]
pub struct ExThirdPartyRequest(biscuit_auth::ThirdPartyRequest);

/// A block signed by a third party.
#[verifier::external_type_specification]
#[verifier::external_body]
pub struct ExThirdPartyBlock(biscuit_auth::ThirdPartyBlock);

/// An authorizer over a token and the facts of a request.
#[verifier::external_type_specification]
#[verifier::external_body]
pub struct ExAuthorizer(biscuit_auth::Authorizer);

// -- Names of what they hold ------------------------------------------------------------------

/// The facts and checks that an authority builder holds, as one block.
pub uninterp spec fn builder_block(b: biscuit_auth::builder::BiscuitBuilder) -> BlockView;

/// The facts and checks that a block builder holds, as one block.
pub uninterp spec fn block_content(b: biscuit_auth::builder::BlockBuilder) -> BlockView;

/// The facts that an authorizer builder holds.
pub uninterp spec fn request_facts(b: biscuit_auth::builder::AuthorizerBuilder) -> Seq<FactView>;

/// The policies that an authorizer builder holds.
pub uninterp spec fn request_policies(b: biscuit_auth::builder::AuthorizerBuilder) -> Seq<
    PolicyView,
>;

/// The seconds that the authorizer of a builder may run.
pub uninterp spec fn request_limit(b: biscuit_auth::builder::AuthorizerBuilder) -> u64;

/// The blocks of a token, the authority block first.
pub uninterp spec fn token_blocks(t: biscuit_auth::Biscuit) -> Seq<BlockView>;

/// The root public key that a token is signed under.
pub uninterp spec fn token_root(t: biscuit_auth::Biscuit) -> Seq<u8>;

/// Whether a token is sealed: closed with a last signature, so that no block can follow.
pub uninterp spec fn token_sealed(t: biscuit_auth::Biscuit) -> bool;

/// Whether bytes hold a sealed token.
pub uninterp spec fn bytes_sealed(bytes: Seq<u8>) -> bool;

/// The block that a third party signed, with its signer.
pub uninterp spec fn third_party_content(b: biscuit_auth::ThirdPartyBlock) -> BlockView;

/// The request facts that an authorizer was built with.
pub uninterp spec fn authorizer_facts(a: biscuit_auth::Authorizer) -> Seq<FactView>;

/// The token blocks that an authorizer was built with.
pub uninterp spec fn authorizer_blocks(a: biscuit_auth::Authorizer) -> Seq<BlockView>;

/// The policies that an authorizer was built with.
pub uninterp spec fn authorizer_policies(a: biscuit_auth::Authorizer) -> Seq<PolicyView>;

/// The seconds that an authorizer may run.
pub uninterp spec fn authorizer_limit(a: biscuit_auth::Authorizer) -> u64;

/// Whether an authorizer over a request's facts and policies and a token's blocks may answer
/// so: `Ok`, or the message of the error. How long it runs depends on the machine, so more than
/// one answer is possible.
pub uninterp spec fn may_answer(
    facts: Seq<FactView>,
    policies: Seq<PolicyView>,
    blocks: Seq<BlockView>,
    max_secs: u64,
    answer: Result<(), Seq<char>>,
) -> bool;

/// Whether building an authorizer over a request's facts and policies and a token's blocks may
/// fail with a message.
pub uninterp spec fn may_refuse(
    facts: Seq<FactView>,
    policies: Seq<PolicyView>,
    blocks: Seq<BlockView>,
    message: Seq<char>,
) -> bool;

/// What decoding bytes under a root public key gives: the blocks of the token, or the
/// message of the error.
pub uninterp spec fn token_decoded(bytes: Seq<u8>, root: Seq<u8>) -> Result<
    Seq<BlockView>,
    Seq<char>,
>;

/// Whether bytes decode to an Ed25519 public key, or the message of the error.
pub uninterp spec fn biscuit_key_decodes(key: Seq<u8>) -> Result<(), Seq<char>>;

/// The message of the error for private key bytes of a wrong length.
pub uninterp spec fn biscuit_secret_error(secret: Seq<u8>) -> Seq<char>;

/// A block that holds nothing.
pub open spec fn empty_block() -> BlockView {
    BlockView {
        facts: Seq::<FactView>::empty(),
        checks: Seq::<CheckView>::empty(),
        plain: true,
        signer: None,
    }
}

/// A block with one more fact.
pub open spec fn with_fact(b: BlockView, f: FactView) -> BlockView {
    BlockView { facts: b.facts.push(f), ..b }
}

/// A block with one more check.
pub open spec fn with_check(b: BlockView, c: CheckView) -> BlockView {
    BlockView { checks: b.checks.push(c), ..b }
}

// -- Keys -------------------------------------------------------------------------------------

/// `PrivateKey::from_bytes` for Ed25519: succeeds on 32 bytes.
#[verifier::external_body]
pub(crate) fn check_secret(secret: &[u8]) -> (r: Result<(), String>)
    ensures
        r is Ok == (secret@.len() == 32),
        r is Err ==> r->Err_0@ == biscuit_secret_error(secret@),
{
    let alg = biscuit_auth::builder::Algorithm::Ed25519;
    biscuit_auth::PrivateKey::from_bytes(secret, alg).map(|_| ()).map_err(|e| e.to_string())
}

/// Biscuit's `PublicKey::from_bytes` for Ed25519: a function of the bytes, which fails on
/// any other length than 32 and succeeds on the public key of a secret.
#[verifier::external_body]
pub(crate) fn check_public(key: &[u8]) -> (r: Result<(), String>)
    ensures
        match r {
            Ok(_) => biscuit_key_decodes(key@) is Ok && key@.len() == 32,
            Err(e) => biscuit_key_decodes(key@) == Err::<(), Seq<char>>(e@) && forall|s: Seq<u8>|
                #![trigger crypto::ed25519_public(s)]
                s.len() == 32 ==> key@ != crypto::ed25519_public(s),
        },
{
    let alg = biscuit_auth::builder::Algorithm::Ed25519;
    biscuit_auth::PublicKey::from_bytes(key, alg).map(|_| ()).map_err(|e| e.to_string())
}

// -- Authority blocks ---------------------------------------------------------------------------

/// `Biscuit::builder`: a builder that holds nothing.
#[verifier::external_body]
pub(crate) fn new_token() -> (r: biscuit_auth::builder::BiscuitBuilder)
    ensures
        builder_block(r) == empty_block(),
{
    biscuit_auth::Biscuit::builder()
}

/// `BiscuitBuilder::fact`: the text of a writable fact parses to that fact, which is added.
/// Nothing is said of other texts.
#[verifier::external_body]
pub(crate) fn token_fact(b: biscuit_auth::builder::BiscuitBuilder, fact: &str) -> (r: Result<
    biscuit_auth::builder::BiscuitBuilder,
    String,
>)
    ensures
        forall|f: FactView|
            datalog::writable_fact(f) && fact@ == #[trigger] datalog::fact_text(f) ==> r is Ok
                && builder_block(r->Ok_0) == with_fact(builder_block(b), f),
{
    b.fact(fact).map_err(|e| e.to_string())
}

/// `BiscuitBuilder::check`: the text of a writable check parses to that check, which is
/// added. Nothing is said of other texts.
#[verifier::external_body]
pub(crate) fn token_check(b: biscuit_auth::builder::BiscuitBuilder, check: &str) -> (r: Result<
    biscuit_auth::builder::BiscuitBuilder,
    String,
>)
    ensures
        forall|c: CheckView|
            datalog::writable_check(c) && check@ == #[trigger] datalog::check_text(c) ==> r is Ok
                && builder_block(r->Ok_0) == with_check(builder_block(b), c),
{
    b.check(check).map_err(|e| e.to_string())
}

/// `BiscuitBuilder::build`: a token of one block, signed under the public key of the secret.
/// The key for the next block is drawn anew at each call, so the token is not the same twice.
/// The token is not sealed.
#[verifier::external_body]
pub(crate) fn build_token(b: biscuit_auth::builder::BiscuitBuilder, secret: &[u8]) -> (r: Result<
    biscuit_auth::Biscuit,
    String,
>)
    requires
        secret@.len() == 32,
    ensures
        r is Ok ==> token_blocks(r->Ok_0) == seq![builder_block(b)],
        r is Ok ==> token_root(r->Ok_0) == crypto::ed25519_public(secret@),
        r is Ok ==> !token_sealed(r->Ok_0),
{
    let alg = biscuit_auth::builder::Algorithm::Ed25519;
    let key = biscuit_auth::PrivateKey::from_bytes(secret, alg).map_err(|e| e.to_string())?;
    b.build(&biscuit_auth::KeyPair::from(&key)).map_err(|e| e.to_string())
}

// -- Tokens -----------------------------------------------------------------------------------

/// `Biscuit::to_vec`: bytes that decode, under the token's root key, to the token's blocks, and
/// hold a sealed token where the token is sealed.
#[verifier::external_body]
pub(crate) fn token_bytes(t: &biscuit_auth::Biscuit) -> (r: Result<Vec<u8>, String>)
    ensures
        r is Ok ==> token_decoded(r->Ok_0@, token_root(*t)) is Ok,
        r is Ok ==> token_decoded(r->Ok_0@, token_root(*t))->Ok_0 == token_blocks(*t),
        r is Ok ==> bytes_sealed(r->Ok_0@) == token_sealed(*t),
{
    t.to_vec().map_err(|e| e.to_string())
}

/// `Biscuit::from`: checks every signature under the root key and decodes the blocks, a
/// function of the bytes and the key. A token has at least one block, and no third party
/// signs the first. It is sealed where the bytes say so.
#[verifier::external_body]
pub(crate) fn parse_token(bytes: &[u8], root: &[u8]) -> (r: Result<biscuit_auth::Biscuit, String>)
    requires
        biscuit_key_decodes(root@) is Ok,
    ensures
        match r {
            Ok(t) => {
                &&& token_decoded(bytes@, root@) == Ok::<Seq<BlockView>, Seq<char>>(token_blocks(t))
                &&& token_root(t) == root@
                &&& token_sealed(t) == bytes_sealed(bytes@)
                &&& token_blocks(t).len() > 0
                &&& token_blocks(t)[0].signer is None
            },
            Err(e) => token_decoded(bytes@, root@) == Err::<Seq<BlockView>, Seq<char>>(e@),
        },
{
    let alg = biscuit_auth::builder::Algorithm::Ed25519;
    let key = biscuit_auth::PublicKey::from_bytes(root, alg).map_err(|e| e.to_string())?;
    biscuit_auth::Biscuit::from(bytes, key).map_err(|e| e.to_string())
}

/// `Biscuit::block_count`: the number of blocks.
#[verifier::external_body]
pub(crate) fn block_count(t: &biscuit_auth::Biscuit) -> (r: usize)
    ensures
        r == token_blocks(*t).len(),
{
    t.block_count()
}

/// `Biscuit::external_public_keys`: for each block the key of the third party that signed
/// it, where one did.
#[verifier::external_body]
pub(crate) fn external_keys(t: &biscuit_auth::Biscuit) -> (r: Vec<Option<Vec<u8>>>)
    ensures
        r@.len() == token_blocks(*t).len(),
        forall|i: int|
            0 <= i < r@.len() ==> match #[trigger] r@[i] {
                Some(k) => token_blocks(*t)[i].signer == Some(k@),
                None => token_blocks(*t)[i].signer is None,
            },
{
    t.external_public_keys().into_iter().map(|k| k.map(|p| p.to_bytes())).collect()
}

// -- Third-party blocks -------------------------------------------------------------------------

/// `BlockBuilder::new`: a builder that holds nothing.
#[verifier::external_body]
pub(crate) fn new_block() -> (r: biscuit_auth::builder::BlockBuilder)
    ensures
        block_content(r) == empty_block(),
{
    biscuit_auth::builder::BlockBuilder::new()
}

/// `BlockBuilder::fact`: the text of a writable fact parses to that fact, which is added.
/// Nothing is said of other texts.
#[verifier::external_body]
pub(crate) fn block_fact(b: biscuit_auth::builder::BlockBuilder, fact: &str) -> (r: Result<
    biscuit_auth::builder::BlockBuilder,
    String,
>)
    ensures
        forall|f: FactView|
            datalog::writable_fact(f) && fact@ == #[trigger] datalog::fact_text(f) ==> r is Ok
                && block_content(r->Ok_0) == with_fact(block_content(b), f),
{
    b.fact(fact).map_err(|e| e.to_string())
}

/// `BlockBuilder::check`: the text of a writable check parses to that check, which is added. A
/// date before 1970 or with a year of more than four digits does not parse. Nothing is said of
/// other texts.
#[verifier::external_body]
pub(crate) fn block_check(b: biscuit_auth::builder::BlockBuilder, check: &str) -> (r: Result<
    biscuit_auth::builder::BlockBuilder,
    String,
>)
    ensures
        forall|c: CheckView|
            datalog::writable_check(c) && check@ == #[trigger] datalog::check_text(c) ==> r is Ok
                && block_content(r->Ok_0) == with_check(block_content(b), c),
        forall|d: int|
            datalog::undated(d) && check@ == #[trigger] datalog::check_text(CheckView::NotAfter(d))
                ==> r is Err,
{
    b.check(check).map_err(|e| e.to_string())
}

/// `Biscuit::third_party_request`: a request that ties a third party's block to the token. It
/// fails for a sealed token, and for no other.
#[verifier::external_body]
pub(crate) fn third_party_request(t: &biscuit_auth::Biscuit) -> (r: Result<
    biscuit_auth::ThirdPartyRequest,
    String,
>)
    ensures
        r is Err == token_sealed(*t),
        r is Err ==> r->Err_0@ == "tried to append a block to a sealed token"@,
{
    t.third_party_request().map_err(|e| e.to_string())
}

/// `ThirdPartyRequest::create_block`: the builder's content, signed by the secret's key.
#[verifier::external_body]
pub(crate) fn create_block(
    request: biscuit_auth::ThirdPartyRequest,
    secret: &[u8],
    b: biscuit_auth::builder::BlockBuilder,
) -> (r: Result<biscuit_auth::ThirdPartyBlock, String>)
    requires
        secret@.len() == 32,
    ensures
        r is Ok ==> third_party_content(r->Ok_0) == (BlockView {
            signer: Some(crypto::ed25519_public(secret@)),
            ..block_content(b)
        }),
{
    let alg = biscuit_auth::builder::Algorithm::Ed25519;
    let key = biscuit_auth::PrivateKey::from_bytes(secret, alg).map_err(|e| e.to_string())?;
    request.create_block(&key, b).map_err(|e| e.to_string())
}

/// `Biscuit::append_third_party`: a token with one more block, the third party's, under the
/// same root key and not sealed.
#[verifier::external_body]
pub(crate) fn append_third_party(
    t: &biscuit_auth::Biscuit,
    signer: &[u8],
    b: biscuit_auth::ThirdPartyBlock,
) -> (r: Result<biscuit_auth::Biscuit, String>)
    ensures
        r is Ok ==> token_blocks(r->Ok_0) == token_blocks(*t).push(third_party_content(b)),
        r is Ok ==> token_root(r->Ok_0) == token_root(*t),
        r is Ok ==> !token_sealed(r->Ok_0),
{
    let alg = biscuit_auth::builder::Algorithm::Ed25519;
    let key = biscuit_auth::PublicKey::from_bytes(signer, alg).map_err(|e| e.to_string())?;
    t.append_third_party(key, b).map_err(|e| e.to_string())
}

/// An answer by view.
pub open spec fn answer_view(r: Result<(), String>) -> Result<(), Seq<char>> {
    match r {
        Ok(_) => Ok(()),
        Err(e) => Err(e@),
    }
}

// -- Authorizers --------------------------------------------------------------------------------

/// `AuthorizerBuilder::new` and `set_limits`: a builder that holds no fact and no policy, with
/// a bound in seconds on the time its authorizer may run. The bound is added to the current
/// instant, which panics where the sum is out of range, so it is at most a day.
#[verifier::external_body]
pub(crate) fn new_request(max_secs: u64) -> (r: biscuit_auth::builder::AuthorizerBuilder)
    requires
        max_secs <= 86400,
    ensures
        request_facts(r) == Seq::<FactView>::empty(),
        request_policies(r) == Seq::<PolicyView>::empty(),
        request_limit(r) == max_secs,
{
    let mut limits = biscuit_auth::AuthorizerLimits::default();
    limits.max_time = std::time::Duration::from_secs(max_secs);
    biscuit_auth::builder::AuthorizerBuilder::new().set_limits(limits)
}

/// `AuthorizerBuilder::fact`: the text of a writable fact parses to that fact, which is
/// added; the policies and the limit stay. A date before 1970 or with a year of more than four
/// digits does not parse. Nothing is said of what other texts add.
#[verifier::external_body]
pub(crate) fn request_fact(b: biscuit_auth::builder::AuthorizerBuilder, fact: &str) -> (r: Result<
    biscuit_auth::builder::AuthorizerBuilder,
    String,
>)
    ensures
        forall|f: FactView|
            datalog::writable_fact(f) && fact@ == #[trigger] datalog::fact_text(f) ==> r is Ok
                && request_facts(r->Ok_0) == request_facts(b).push(f),
        forall|name: Seq<char>, d: int|
            datalog::is_name(name) && datalog::undated(d) && fact@ == #[trigger] datalog::fact_text(
                datalog::date_fact(name, d),
            ) ==> r is Err,
        r is Ok ==> request_policies(r->Ok_0) == request_policies(b),
        r is Ok ==> request_limit(r->Ok_0) == request_limit(b),
{
    b.fact(fact).map_err(|e| e.to_string())
}

/// `AuthorizerBuilder::policy`: the text of a policy parses to that policy, which is added behind
/// the others; the facts and the limit stay. Nothing is said of what other texts add.
#[verifier::external_body]
pub(crate) fn request_policy(b: biscuit_auth::builder::AuthorizerBuilder, policy: &str) -> (r:
    Result<biscuit_auth::builder::AuthorizerBuilder, String>)
    ensures
        forall|p: PolicyView|
            policy@ == #[trigger] datalog::policy_text(p) ==> r is Ok && request_policies(r->Ok_0)
                == request_policies(b).push(p),
        r is Ok ==> request_facts(r->Ok_0) == request_facts(b),
        r is Ok ==> request_limit(r->Ok_0) == request_limit(b),
{
    b.policy(policy).map_err(|e| e.to_string())
}

/// `AuthorizerBuilder::build`: an authorizer over the builder's facts, policies and limit and the
/// token's blocks, or an error that depends on these.
#[verifier::external_body]
pub(crate) fn build_authorizer(
    b: biscuit_auth::builder::AuthorizerBuilder,
    t: &biscuit_auth::Biscuit,
) -> (r: Result<biscuit_auth::Authorizer, String>)
    ensures
        r is Ok ==> authorizer_facts(r->Ok_0) == request_facts(b),
        r is Ok ==> authorizer_policies(r->Ok_0) == request_policies(b),
        r is Ok ==> authorizer_limit(r->Ok_0) == request_limit(b),
        r is Ok ==> authorizer_blocks(r->Ok_0) == token_blocks(*t),
        r is Err ==> may_refuse(
            request_facts(b),
            request_policies(b),
            token_blocks(*t),
            r->Err_0@,
        ),
{
    b.build(t).map_err(|e| e.to_string())
}

/// `Authorizer::authorize`: an answer that facts, policies, blocks and limit admit. It succeeds
/// only where every check of the token holds over the facts it sees. It may also fail for
/// running too long, so nothing promises success.
#[verifier::external_body]
pub(crate) fn authorize(a: &mut biscuit_auth::Authorizer) -> (r: Result<(), String>)
    ensures
        may_answer(
            authorizer_facts(*old(a)),
            authorizer_policies(*old(a)),
            authorizer_blocks(*old(a)),
            authorizer_limit(*old(a)),
            answer_view(r),
        ),
        r is Ok ==> datalog::permitted(authorizer_facts(*old(a)), authorizer_blocks(*old(a))),
{
    a.authorize().map(|_| ()).map_err(|e| e.to_string())
}

/// `Authorizer::query` for one string: the strings of the facts of a name that the request
/// and the authority block hold, in no fixed order. It may also fail for running too long.
#[verifier::external_body]
pub(crate) fn query_text_rows(a: &mut biscuit_auth::Authorizer, rule: &str) -> (r: Result<
    Vec<String>,
    String,
>)
    ensures
        r is Ok ==> forall|name: Seq<char>|
            datalog::is_name(name) && rule@ == #[trigger] datalog::query_text(name)
                && authorizer_blocks(*old(a))[0].plain ==> text::views(r->Ok_0@).to_set()
                == datalog::strings_in(
                authorizer_facts(*old(a)) + authorizer_blocks(*old(a))[0].facts,
                name,
            ),
{
    let rows: Result<Vec<(String,)>, biscuit_auth::error::Token> = a.query(rule);
    rows.map(|v| v.into_iter().map(|(s,)| s).collect()).map_err(|e| e.to_string())
}

/// `Authorizer::query` for one integer: the integers of the facts of a name that the request
/// and the authority block hold, in no fixed order. It may also fail for running too long.
#[verifier::external_body]
pub(crate) fn query_int_rows(a: &mut biscuit_auth::Authorizer, rule: &str) -> (r: Result<
    Vec<i64>,
    String,
>)
    ensures
        r is Ok ==> forall|name: Seq<char>|
            datalog::is_name(name) && rule@ == #[trigger] datalog::query_text(name)
                && authorizer_blocks(*old(a))[0].plain ==> int_views(r->Ok_0@).to_set()
                == datalog::ints_in(
                authorizer_facts(*old(a)) + authorizer_blocks(*old(a))[0].facts,
                name,
            ),
{
    let rows: Result<Vec<(i64,)>, biscuit_auth::error::Token> = a.query(rule);
    rows.map(|v| v.into_iter().map(|(n,)| n).collect()).map_err(|e| e.to_string())
}

/// The integers of a list.
pub open spec fn int_views(v: Seq<i64>) -> Seq<int> {
    v.map_values(|n: i64| n as int)
}

/// `Authorizer::query_all` for one integer: the integers of the facts of a name that the
/// request and all blocks hold, in no fixed order. It may also fail for running too long.
#[verifier::external_body]
pub(crate) fn query_all_int_rows(a: &mut biscuit_auth::Authorizer, rule: &str) -> (r: Result<
    Vec<i64>,
    String,
>)
    ensures
        r is Ok ==> forall|name: Seq<char>|
            datalog::is_name(name) && rule@ == #[trigger] datalog::query_text(name)
                && datalog::all_plain(authorizer_blocks(*old(a))) ==> int_views(
                r->Ok_0@,
            ).to_set() == datalog::ints_in(
                authorizer_facts(*old(a)) + datalog::all_facts(authorizer_blocks(*old(a))),
                name,
            ),
{
    let rows: Result<Vec<(i64,)>, biscuit_auth::error::Token> = a.query_all(rule);
    rows.map(|v| v.into_iter().map(|(n,)| n).collect()).map_err(|e| e.to_string())
}

/// `Authorizer::query_all` for two strings: the string pairs of the facts of a name that the
/// request and all blocks hold, in no fixed order. It may also fail for running too long.
#[verifier::external_body]
pub(crate) fn query_all_pair_rows(a: &mut biscuit_auth::Authorizer, rule: &str) -> (r: Result<
    Vec<(String, String)>,
    String,
>)
    ensures
        r is Ok ==> forall|name: Seq<char>|
            datalog::is_name(name) && rule@ == #[trigger] datalog::pair_query_text(name)
                && datalog::all_plain(authorizer_blocks(*old(a))) ==> pair_views(
                r->Ok_0@,
            ).to_set() == datalog::pairs_in(
                authorizer_facts(*old(a)) + datalog::all_facts(authorizer_blocks(*old(a))),
                name,
            ),
{
    let rows: Result<Vec<(String, String)>, biscuit_auth::error::Token> = a.query_all(rule);
    rows.map_err(|e| e.to_string())
}

/// The views of a list of string pairs.
pub open spec fn pair_views(v: Seq<(String, String)>) -> Seq<(Seq<char>, Seq<char>)> {
    v.map_values(|p: (String, String)| (p.0@, p.1@))
}

} // verus!
