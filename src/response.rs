use vstd::prelude::*;

use crate::headers::Headers;
use crate::request::blank_line;
use crate::text::push_char;

verus! {

/// The statuses a response can carry.
#[derive(Debug, Clone, Copy, PartialEq, Eq, Structural)]
pub enum HTTPStatus {
    OK,
}

impl HTTPStatus {
    pub open spec fn spec_code(&self) -> nat {
        match self {
            HTTPStatus::OK => 200,
        }
    }

    pub open spec fn spec_reason(&self) -> Seq<char> {
        match self {
            HTTPStatus::OK => seq!['O', 'K'],
        }
    }

    /// The numeric status code.
    pub fn code(&self) -> (c: u64)
        ensures
            c == self.spec_code(),
    {
        match self {
            HTTPStatus::OK => 200,
        }
    }

    /// The reason phrase that goes with the code.
    pub fn reason(&self) -> (r: &'static str)
        ensures
            r@ == self.spec_reason(),
    {
        proof {
            reveal_strlit("OK");
        }
        match self {
            HTTPStatus::OK => "OK",
        }
    }
}

/// The character of the decimal digit `d`.
pub open spec fn digit_char(d: nat) -> char {
    seq!['0', '1', '2', '3', '4', '5', '6', '7', '8', '9'][d as int]
}

/// The decimal digits of `n`, most significant first, without leading zeros.
pub open spec fn decimal(n: nat) -> Seq<char>
    decreases n,
{
    if n < 10 {
        seq![digit_char(n)]
    } else {
        decimal(n / 10).push(digit_char(n % 10))
    }
}

/// Appends the decimal digits of `n` to `out`.
fn push_decimal(out: &mut String, n: u64)
    ensures
        final(out)@ == old(out)@ + decimal(n as nat),
    decreases n,
{
    let digits = vec!['0', '1', '2', '3', '4', '5', '6', '7', '8', '9'];
    if n >= 10 {
        push_decimal(out, n / 10);
    }
    push_char(out, digits[(n % 10) as usize]);
    assert(digits@ =~= seq!['0', '1', '2', '3', '4', '5', '6', '7', '8', '9']);
    proof {
        if n >= 10 {
            assert(old(out)@ + decimal(n as nat) =~= old(out)@ + decimal((n / 10) as nat) + seq![
                digit_char((n % 10) as nat),
            ]);
        } else {
            assert(old(out)@ + decimal(n as nat) =~= old(out)@.push(digit_char(n as nat)));
        }
    }
}

/// The protocol label a response carries.
pub open spec fn version_label() -> Seq<char> {
    seq!['H', 'T', 'T', 'P', '/', '1', '.', '1']
}

/// What a response holds.
pub struct ResponseModel {
    pub version: Seq<char>,
    pub status: Seq<char>,
    pub reason: Seq<char>,
    pub headers: Map<Seq<char>, Seq<char>>,
    pub body: Seq<char>,
}

/// The default response: success status, no headers, empty body.
pub open spec fn initial_response() -> ResponseModel {
    ResponseModel {
        version: version_label(),
        status: decimal(HTTPStatus::OK.spec_code()),
        reason: HTTPStatus::OK.spec_reason(),
        headers: Map::empty(),
        body: Seq::empty(),
    }
}

/// The wire text of a response: status line, blank line, body. Headers are
/// not written.
pub open spec fn serialize(m: ResponseModel) -> Seq<char> {
    m.version + seq![' '] + m.status + seq![' '] + m.reason + blank_line() + m.body
}

/// A response under construction; each builder step returns the updated
/// value.
pub struct Response {
    headers: Headers,
    version: String,
    status: String,
    reason: String,
    body: String,
}

impl View for Response {
    type V = ResponseModel;

    closed spec fn view(&self) -> ResponseModel {
        ResponseModel {
            version: self.version@,
            status: self.status@,
            reason: self.reason@,
            headers: self.headers@,
            body: self.body@,
        }
    }
}

impl Response {
    /// A response with the success status and an empty body.
    pub fn new() -> (r: Response)
        ensures
            r@ == initial_response(),
    {
        proof {
            reveal_strlit("HTTP/1.1");
        }
        let ok = HTTPStatus::OK;
        let mut status = String::new();
        push_decimal(&mut status, ok.code());
        assert(status@ =~= decimal(200));
        let version = String::from_str("HTTP/1.1");
        assert(version@ =~= version_label());
        Response {
            headers: Headers::new(),
            version,
            status,
            reason: String::from_str(ok.reason()),
            body: String::new(),
        }
    }

    /// Sets the status code and reason phrase.
    pub fn status(self, status: HTTPStatus) -> (r: Response)
        ensures
            r@ == (ResponseModel {
                status: decimal(status.spec_code()),
                reason: status.spec_reason(),
                ..self@
            }),
    {
        let mut code = String::new();
        push_decimal(&mut code, status.code());
        assert(code@ =~= decimal(status.spec_code()));
        Response { status: code, reason: String::from_str(status.reason()), ..self }
    }

    /// Sets the body.
    pub fn body(self, body: &str) -> (r: Response)
        ensures
            r@ == (ResponseModel { body: body@, ..self@ }),
    {
        Response { body: String::from_str(body), ..self }
    }

    /// The response as wire text.
    pub fn build(&self) -> (r: String)
        ensures
            r@ == serialize(self@),
    {
        proof {
            reveal_strlit(" ");
            reveal_strlit("\r\n\r\n");
        }
        let mut r = self.version.clone();
        r.append(" ");
        r.append(self.status.as_str());
        r.append(" ");
        r.append(self.reason.as_str());
        r.append("\r\n\r\n");
        r.append(self.body.as_str());
        assert(r@ =~= serialize(self@));
        r
    }
}

/// Building is a function of the response's state alone: two builds of
/// the same state give the same text.
pub proof fn lemma_build_idempotent(a: Response, b: Response)
    requires
        a@ == b@,
    ensures
        serialize(a@) == serialize(b@),
{
}

} // verus!
