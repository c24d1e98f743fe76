//! The identity header of a task that one agent delegates to another.
//!
//! Attaches a signed capability presentation to a delegated task so that the receiving agent
//! can verify the caller's authority offline. The header is a compact, self-contained text:
//! `AgentCreds-A2A/1.<base64url(CBOR(presentation))>`.
//!
//! The sender mints the challenge with the receiver as audience and signs proof of possession
//! over it. The receiver verifies the embedded proof, requires the audience to be itself, and
//! enforces a freshness window. Within that window and audience a captured header can be
//! replayed, so keep the window short and the audience specific.

use vstd::prelude::*;
use vstd::string::*;
use crate::crypto;
use crate::did;
use crate::error::{AgentCredsError, ErrorView};
use crate::text;

verus! {

/// A presentation as a header carries it.
#[derive(Debug)]
pub struct Presentation {
    /// The presentation's CBOR encoding.
    pub cbor: Vec<u8>,
    /// The audience of the challenge that its proof answers.
    pub audience: Option<String>,
}

/// The header of some bytes.
pub open spec fn header_of(cbor: Seq<u8>) -> Seq<char> {
    "AgentCreds-A2A/1."@ + crypto::base64url_text(cbor)
}

/// The error for a header that cannot be read.
pub open spec fn bad_header(detail: Seq<char>) -> ErrorView {
    ErrorView::OutOfBounds { field: "a2a_header"@, detail }
}

/// What a header holds.
pub open spec fn header_body(header: Seq<char>) -> Result<Seq<u8>, ErrorView> {
    if !text::begins(header, "AgentCreds-A2A/1."@) {
        Err(bad_header("missing 'AgentCreds-A2A/1.' scheme prefix"@))
    } else {
        match crypto::base64url_decoded(header.skip("AgentCreds-A2A/1."@.len() as int)) {
            Ok(b) => Ok(b),
            Err(e) => Err(bad_header("invalid base64url body: "@ + e)),
        }
    }
}

/// What verifying a presentation as the receiving agent gives: the audience must be that
/// agent, and the presentation itself must verify.
pub open spec fn a2a_outcome(
    audience: Option<Seq<char>>,
    expected_audience: Seq<char>,
    verified: Result<(), ErrorView>,
) -> Result<(), ErrorView> {
    if audience != Some(expected_audience) {
        Err(
            ErrorView::ProofOfPossessionFailed {
                reason: "a2a header audience does not match this verifier"@,
            },
        )
    } else {
        verified
    }
}

impl Presentation {
    /// Encode this presentation as a header text.
    ///
    /// # Errors
    /// `OutOfBounds` where the text would not fit in memory.
    pub fn to_a2a_header(&self) -> (r: Result<String, AgentCredsError>)
        ensures
            match r {
                Ok(s) => {
                    &&& self.cbor@.len() <= usize::MAX / 4
                    &&& s@ == header_of(self.cbor@)
                    &&& header_body(s@) == Ok::<Seq<u8>, ErrorView>(self.cbor@)
                },
                Err(e) => self.cbor@.len() > usize::MAX / 4 && e@ == bad_header(
                    "presentation is too long"@,
                ),
            },
    {
        if self.cbor.len() > usize::MAX / 4 {
            return Err(
                AgentCredsError::OutOfBounds {
                    field: "a2a_header",
                    detail: "presentation is too long".to_owned(),
                },
            );
        }
        let body = crypto::base64url_encode(self.cbor.as_slice());
        let mut header = "AgentCreds-A2A/1.".to_owned();
        header.append(body.as_str());
        assert(header@.skip("AgentCreds-A2A/1."@.len() as int) =~= body@);
        assert(text::begins(header@, "AgentCreds-A2A/1."@)) by {
            assert(header@.take("AgentCreds-A2A/1."@.len() as int) =~= "AgentCreds-A2A/1."@);
        }
        Ok(header)
    }

    /// The CBOR encoding of the presentation that a header text carries.
    ///
    /// # Errors
    /// `OutOfBounds` if the scheme prefix is missing or the body is not valid base64url.
    pub fn from_a2a_header(header: &str) -> (r: Result<Vec<u8>, AgentCredsError>)
        ensures
            match r {
                Ok(b) => header_body(header@) == Ok::<Seq<u8>, ErrorView>(b@),
                Err(e) => header_body(header@) == Err::<Seq<u8>, ErrorView>(e@),
            },
    {
        match text::strip_prefix(header, "AgentCreds-A2A/1.") {
            None => Err(
                AgentCredsError::OutOfBounds {
                    field: "a2a_header",
                    detail: "missing 'AgentCreds-A2A/1.' scheme prefix".to_owned(),
                },
            ),
            Some(body) => match crypto::base64url_decode(body.as_str()) {
                Ok(b) => Ok(b),
                Err(e) => {
                    let mut detail = "invalid base64url body: ".to_owned();
                    detail.append(e.as_str());
                    Err(AgentCredsError::OutOfBounds { field: "a2a_header", detail })
                },
            },
        }
    }

    /// Verify a presentation as the receiving agent: requires the embedded challenge's audience
    /// to equal `expected_audience` (this verifier), so that a header minted for one receiver
    /// cannot be replayed against another. `verified` is what verifying the presentation itself
    /// gave (anchor-rooted token plus proof of possession).
    ///
    /// # Errors
    /// `ProofOfPossessionFailed` if the audience does not match, else the error of `verified`.
    pub fn verify_a2a(
        &self,
        expected_audience: &str,
        verified: Result<(), AgentCredsError>,
    ) -> (r: Result<(), AgentCredsError>)
        ensures
            did::unit_view(r) == a2a_outcome(
                text::opt_view(self.audience),
                expected_audience@,
                did::unit_view(verified),
            ),
    {
        let matches = match &self.audience {
            Some(a) => text::str_eq(a.as_str(), expected_audience),
            None => false,
        };
        if !matches {
            return Err(
                AgentCredsError::ProofOfPossessionFailed {
                    reason: "a2a header audience does not match this verifier".to_owned(),
                },
            );
        }
        verified
    }
}

/// A header minted for one receiver is refused by every other.
pub proof fn a_header_is_bound_to_its_receiver(
    audience: Seq<char>,
    receiver: Seq<char>,
    verified: Result<(), ErrorView>,
)
    requires
        audience != receiver,
    ensures
        a2a_outcome(Some(audience), receiver, verified) is Err,
{
}

/// A message is accepted exactly where its header names the receiver as its audience and what it
/// carries verifies; a header for nobody or for another is a failed proof of possession.
pub proof fn an_accepted_header_is_for_the_receiver(
    audience: Option<Seq<char>>,
    expected_audience: Seq<char>,
    verified: Result<(), ErrorView>,
)
    ensures
        a2a_outcome(audience, expected_audience, verified) is Ok <==> audience == Some(
            expected_audience,
        ) && verified is Ok,
        audience == Some(expected_audience) ==> a2a_outcome(audience, expected_audience, verified)
            == verified,
        audience != Some(expected_audience) ==> a2a_outcome(
            audience,
            expected_audience,
            verified,
        )->Err_0 is ProofOfPossessionFailed,
{
}

/// A header carries its body: one that was written reads back to what decoding its Base64 gives, and a
/// text under another scheme is refused.
pub proof fn a_header_carries_its_body(cbor: Seq<u8>, header: Seq<char>)
    ensures
        crypto::base64url_decoded(crypto::base64url_text(cbor)) == Ok::<Seq<u8>, Seq<char>>(cbor)
            ==> header_body(header_of(cbor)) == Ok::<Seq<u8>, ErrorView>(cbor),
        header_body(header) is Ok ==> text::begins(header, "AgentCreds-A2A/1."@) && header_body(
            header,
        )->Ok_0 == crypto::base64url_decoded(
            header.skip("AgentCreds-A2A/1."@.len() as int),
        )->Ok_0 && crypto::base64url_decoded(
            header.skip("AgentCreds-A2A/1."@.len() as int),
        ) is Ok,
        header_body(header) is Err ==> header_body(header)->Err_0 is OutOfBounds,
{
    let tag = "AgentCreds-A2A/1."@;
    assert(header_of(cbor).take(tag.len() as int) =~= tag);
    assert(header_of(cbor).skip(tag.len() as int) =~= crypto::base64url_text(cbor));
}

} // verus!
