use vstd::prelude::*;
use vstd::utf8::{decode_utf8, valid_utf8};

use crate::error::RequestError;
use crate::pad::{left_pad, padding_of, padding_spec, repeat, slash};
use crate::request::{blank_line, parse_request, request_of};
use crate::response::{initial_response, serialize, HTTPStatus, Response, ResponseModel};
use crate::text::find;

verus! {

/// What a lossy UTF-8 decoding makes of `b`.
pub uninterp spec fn lossy_text(b: Seq<u8>) -> Seq<char>;

/// Relies on `String::from_utf8_lossy`: the text the bytes encode, with
/// each invalid sequence replaced; valid UTF-8 decodes as it is.
#[verifier::external_body]
fn decode_lossy(b: &[u8]) -> (r: String)
    ensures
        r@ == lossy_text(b@),
        valid_utf8(b@) ==> r@ == decode_utf8(b@),
{
    String::from_utf8_lossy(b).into_owned()
}

/// The reply text for a raw request: the request's body prefixed with the
/// URI's pad token written count times, under the success status.
pub open spec fn response_of(raw: Seq<char>) -> Result<Seq<char>, RequestError> {
    match request_of(raw) {
        Err(e) => Err(e),
        Ok(req) => match padding_spec(req.uri) {
            Err(e) => Err(e),
            Ok((n, p)) => Ok(
                serialize(ResponseModel { body: repeat(p, n) + req.body, ..initial_response() }),
            ),
        },
    }
}

/// Computes the reply to one request.
pub fn respond(raw: &str) -> (r: Result<String, RequestError>)
    ensures
        match response_of(raw@) {
            Ok(t) => r is Ok && r->Ok_0@ == t,
            Err(e) => r == Err::<String, RequestError>(e),
        },
{
    let req = match parse_request(raw) {
        Err(e) => {
            return Err(e);
        },
        Ok(req) => req,
    };
    let (n, pad) = match padding_of(req.uri.as_str()) {
        Err(e) => {
            return Err(e);
        },
        Ok(np) => np,
    };
    let body = left_pad(req.body, n, pad.as_str());
    let res = Response::new().status(HTTPStatus::OK).body(body.as_str());
    Ok(res.build())
}

/// Computes the reply to the bytes read from a connection, decoding them
/// as UTF-8 with invalid sequences replaced.
pub fn handle_buffer(buffer: &[u8]) -> (r: Result<String, RequestError>)
    ensures
        match response_of(lossy_text(buffer@)) {
            Ok(t) => r is Ok && r->Ok_0@ == t,
            Err(e) => r == Err::<String, RequestError>(e),
        },
        valid_utf8(buffer@) ==> match response_of(decode_utf8(buffer@)) {
            Ok(t) => r is Ok && r->Ok_0@ == t,
            Err(e) => r == Err::<String, RequestError>(e),
        },
{
    let text = decode_lossy(buffer);
    respond(text.as_str())
}

/// A request without the blank line after its head gets no reply.
pub proof fn lemma_missing_blank_line_fails(raw: Seq<char>)
    requires
        find(raw, blank_line()) is None,
    ensures
        response_of(raw) == Err::<Seq<char>, RequestError>(RequestError::MissingBlankLine),
{
}

/// The URI `/` names no count, and is refused rather than read as zero.
pub proof fn lemma_root_uri_fails()
    ensures
        padding_spec(slash()) == Err::<(nat, Seq<char>), RequestError>(RequestError::InvalidCount),
{
    let u = slash();
    assert(u.subrange(0, 1) =~= u);
    assert(find(u, slash()) == Some(0int));
    let rest = u.skip(1);
    assert(rest =~= Seq::<char>::empty());
    assert(find(rest, slash()) is None);
}

} // verus!
