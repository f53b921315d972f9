//! What the engine writes back: a status line, header lines, an empty
//! line and a body.

use vstd::prelude::*;
use vstd::string::*;
use crate::bytes::{append, bytes_of, crlf};
use crate::headers::{fields_view, header_lines};
use crate::number::{digits_of, push_decimal};

verus! {

/// A response before it is written out.
#[derive(Clone, Debug, PartialEq, Eq)]
pub struct Response {
    pub code: u16,
    pub reason: Vec<u8>,
    pub headers: Vec<(Vec<u8>, Vec<u8>)>,
    pub body: Vec<u8>,
}

/// What a `Response` holds.
pub struct ResponseView {
    pub code: nat,
    pub reason: Seq<u8>,
    pub headers: Seq<(Seq<u8>, Seq<u8>)>,
    pub body: Seq<u8>,
}

impl View for Response {
    type V = ResponseView;

    open spec fn view(&self) -> ResponseView {
        ResponseView {
            code: self.code as nat,
            reason: self.reason@,
            headers: fields_view(self.headers@),
            body: self.body@,
        }
    }
}

/// The bytes of a response on the wire: `HTTP/1.1`, the code and the
/// reason on the status line, the header lines, an empty line, the body.
pub open spec fn rendered(r: ResponseView) -> Seq<u8> {
    "HTTP/1.1 ".spec_bytes() + digits_of(r.code) + seq![32u8] + r.reason + crlf() + header_lines(
        r.headers,
    ) + crlf() + r.body
}

/// A response with a status, no header and no body.
pub open spec fn plain(code: nat, reason: Seq<u8>) -> ResponseView {
    ResponseView { code, reason, headers: Seq::empty(), body: Seq::empty() }
}

impl Response {
    /// A response with a status, no header and no body.
    pub fn new(code: u16, reason: &str) -> (r: Response)
        ensures
            r@ == plain(code as nat, reason.spec_bytes()),
    {
        let r = Response {
            code,
            reason: bytes_of(reason),
            headers: Vec::new(),
            body: Vec::new(),
        };
        assert(fields_view(r.headers@) =~= Seq::<(Seq<u8>, Seq<u8>)>::empty());
        r
    }

    /// The response with one more header field behind those it has.
    pub fn header(self, name: &str, value: Vec<u8>) -> (r: Response)
        ensures
            r@ == (ResponseView {
                headers: self@.headers.push((name.spec_bytes(), value@)),
                ..self@
            }),
    {
        let mut r = self;
        let ghost before = fields_view(r.headers@);
        r.headers.push((bytes_of(name), value));
        assert(fields_view(r.headers@) =~= before.push((name.spec_bytes(), value@)));
        r
    }

    /// The response with `body` in place of its body.
    pub fn with_body(self, body: Vec<u8>) -> (r: Response)
        ensures
            r@ == (ResponseView { body: body@, ..self@ }),
    {
        let mut r = self;
        r.body = body;
        r
    }

    /// The bytes of the response on the wire.
    pub fn to_bytes(&self) -> (out: Vec<u8>)
        ensures
            out@ == rendered(self@),
    {
        let mut out: Vec<u8> = bytes_of("HTTP/1.1 ");
        push_decimal(&mut out, self.code as u64);
        out.push(32);
        append(&mut out, self.reason.as_slice());
        out.push(13);
        out.push(10);
        let ghost head = out@;
        assert(head =~= "HTTP/1.1 ".spec_bytes() + digits_of(self.code as nat) + seq![32u8]
            + self.reason@ + crlf());
        let n: usize = self.headers.len();
        let mut i: usize = 0;
        assert(fields_view(self.headers@).take(0) =~= Seq::<(Seq<u8>, Seq<u8>)>::empty());
        assert(head + Seq::<u8>::empty() =~= head);
        while i < n
            invariant
                n == self.headers@.len(),
                i <= n,
                out@ == head + header_lines(fields_view(self.headers@).take(i as int)),
            decreases n - i,
        {
            let ghost done = fields_view(self.headers@).take(i as int);
            let ghost next = fields_view(self.headers@).take(i + 1);
            assert(next.drop_last() =~= done);
            assert(next.last() == (self.headers@[i as int].0@, self.headers@[i as int].1@));
            append(&mut out, self.headers[i].0.as_slice());
            out.push(58);
            out.push(32);
            append(&mut out, self.headers[i].1.as_slice());
            out.push(13);
            out.push(10);
            assert(out@ =~= head + (header_lines(done) + next.last().0 + seq![58u8, 32u8]
                + next.last().1 + crlf()));
            i += 1;
        }
        assert(fields_view(self.headers@).take(n as int) =~= fields_view(self.headers@));
        out.push(13);
        out.push(10);
        append(&mut out, self.body.as_slice());
        assert(out@ =~= rendered(self@));
        out
    }
}

/// What `failure` holds: a status and its text as the body.
pub open spec fn failure_view(code: nat, reason: Seq<u8>, text: Seq<u8>) -> ResponseView {
    ResponseView { body: text, ..plain(code, reason) }
}

/// A response that reports a failure: a status and a short text as the
/// body.
pub fn failure(code: u16, reason: &str, text: &str) -> (r: Response)
    ensures
        r@ == failure_view(code as nat, reason.spec_bytes(), text.spec_bytes()),
{
    Response::new(code, reason).with_body(bytes_of(text))
}

/// What `bad_request` holds.
pub open spec fn bad_request_view() -> ResponseView {
    failure_view(400, "BAD REQUEST".spec_bytes(), "400 Bad Request".spec_bytes())
}

/// The answer to a request that cannot be read.
pub fn bad_request() -> (r: Response)
    ensures
        r@ == bad_request_view(),
{
    failure(400, "BAD REQUEST", "400 Bad Request")
}

/// What `unauthorized` holds.
pub open spec fn unauthorized_view() -> ResponseView {
    failure_view(401, "UNAUTHORIZED".spec_bytes(), "401 Unauthorized".spec_bytes())
}

/// The answer to a call of the API that carries no known session.
pub fn unauthorized() -> (r: Response)
    ensures
        r@ == unauthorized_view(),
{
    failure(401, "UNAUTHORIZED", "401 Unauthorized")
}

/// What `not_found` holds.
pub open spec fn not_found_view() -> ResponseView {
    failure_view(404, "NOT FOUND".spec_bytes(), "404 Not Found".spec_bytes())
}

/// The answer to a request for what does not exist.
pub fn not_found() -> (r: Response)
    ensures
        r@ == not_found_view(),
{
    failure(404, "NOT FOUND", "404 Not Found")
}

/// What `method_not_allowed` holds: the status line and nothing else.
pub open spec fn method_not_allowed_view() -> ResponseView {
    plain(405, "METHOD NOT ALLOWED".spec_bytes())
}

/// The answer to a request whose method is neither GET nor POST.
pub fn method_not_allowed() -> (r: Response)
    ensures
        r@ == method_not_allowed_view(),
{
    Response::new(405, "METHOD NOT ALLOWED")
}

/// What `malformed_request` holds: the status line and nothing else.
pub open spec fn malformed_request_view() -> ResponseView {
    plain(400, "BAD REQUEST".spec_bytes())
}

/// The answer to a message that is no request.
pub fn malformed_request() -> (r: Response)
    ensures
        r@ == malformed_request_view(),
{
    Response::new(400, "BAD REQUEST")
}

/// What `endpoint_not_found` holds: the status 404 and the announcement
/// of an empty body.
pub open spec fn endpoint_not_found_view() -> ResponseView {
    ResponseView {
        headers: seq![("Content-Length".spec_bytes(), "0".spec_bytes())],
        ..plain(404, "NOT FOUND".spec_bytes())
    }
}

/// The answer to a GET for an endpoint that the API does not have.
pub fn endpoint_not_found() -> (r: Response)
    ensures
        r@ == endpoint_not_found_view(),
{
    let r = Response::new(404, "NOT FOUND").header("Content-Length", bytes_of("0"));
    assert(r@.headers =~= endpoint_not_found_view().headers);
    r
}

/// What `board_not_found` holds: the status line and nothing else.
pub open spec fn board_not_found_view() -> ResponseView {
    plain(404, "NOT FOUND".spec_bytes())
}

/// The answer of the message board to an endpoint that it does not have.
pub fn board_not_found() -> (r: Response)
    ensures
        r@ == board_not_found_view(),
{
    Response::new(404, "NOT FOUND")
}

/// What `upload_unauthorized` holds.
pub open spec fn upload_unauthorized_view() -> ResponseView {
    failure_view(401, "UNAUTHORIZED".spec_bytes(), "401 UNAUTHORIZED".spec_bytes())
}

/// The answer to an upload that carries no known session.
pub fn upload_unauthorized() -> (r: Response)
    ensures
        r@ == upload_unauthorized_view(),
{
    failure(401, "UNAUTHORIZED", "401 UNAUTHORIZED")
}

/// What `redirect` holds: the status 301, the place to go to, the
/// announcement of an empty body, and behind the header block the words
/// `301 Moved Permanently`.
pub open spec fn redirect_view(location: Seq<u8>) -> ResponseView {
    ResponseView {
        headers: seq![
            ("Location".spec_bytes(), location),
            ("Content-Length".spec_bytes(), "0".spec_bytes()),
        ],
        body: "301 Moved Permanently".spec_bytes(),
        ..plain(301, "MOVED PERMANENTLY".spec_bytes())
    }
}

/// The answer to a GET that sends the client to `location`.
pub fn redirect(location: &str) -> (r: Response)
    ensures
        r@ == redirect_view(location.spec_bytes()),
{
    let r = Response::new(301, "MOVED PERMANENTLY").header("Location", bytes_of(location)).header(
        "Content-Length",
        bytes_of("0"),
    ).with_body(bytes_of("301 Moved Permanently"));
    assert(r@.headers =~= redirect_view(location.spec_bytes()).headers);
    r
}

/// What `comment_stored` holds: a redirect to the home page with an empty
/// body.
pub open spec fn comment_stored_view() -> ResponseView {
    ResponseView {
        headers: seq![
            ("Location".spec_bytes(), "/".spec_bytes()),
            ("Content-Length".spec_bytes(), "0".spec_bytes()),
        ],
        ..plain(301, "Moved Permanently".spec_bytes())
    }
}

/// The answer to a comment that was stored.
pub fn comment_stored() -> (r: Response)
    ensures
        r@ == comment_stored_view(),
{
    let r = Response::new(301, "Moved Permanently").header("Location", bytes_of("/")).header(
        "Content-Length",
        bytes_of("0"),
    );
    assert(r@.headers =~= comment_stored_view().headers);
    r
}

/// What `upload_stored` holds: a redirect to the home page.
pub open spec fn upload_stored_view() -> ResponseView {
    ResponseView {
        headers: seq![("Location".spec_bytes(), "/".spec_bytes())],
        ..plain(301, "MOVED PERMANENTLY".spec_bytes())
    }
}

/// The answer to an upload that was stored.
pub fn upload_stored() -> (r: Response)
    ensures
        r@ == upload_stored_view(),
{
    let r = Response::new(301, "MOVED PERMANENTLY").header("Location", bytes_of("/"));
    assert(r@.headers =~= upload_stored_view().headers);
    r
}

/// What `page` holds.
pub open spec fn page_view(content: Seq<u8>) -> ResponseView {
    ResponseView { body: content, ..plain(200, "OK".spec_bytes()) }
}

/// The answer that carries a page.
pub fn page(content: Vec<u8>) -> (r: Response)
    ensures
        r@ == page_view(content@),
{
    Response::new(200, "OK").with_body(content)
}

/// What `not_found_page` holds.
pub open spec fn not_found_page_view(content: Seq<u8>) -> ResponseView {
    ResponseView { body: content, ..plain(404, "NOT FOUND".spec_bytes()) }
}

/// The answer to a request for a file that does not exist: the status 404
/// with the not-found page as its body.
pub fn not_found_page(content: Vec<u8>) -> (r: Response)
    ensures
        r@ == not_found_page_view(content@),
{
    Response::new(404, "NOT FOUND").with_body(content)
}

/// What `typed` holds.
pub open spec fn typed_view(content_type: Seq<u8>, content: Seq<u8>) -> ResponseView {
    ResponseView {
        headers: seq![("Content-Type".spec_bytes(), content_type)],
        body: content,
        ..plain(200, "OK".spec_bytes())
    }
}

/// The answer that carries content of a declared type: an image, or the
/// JSON text of the API.
pub fn typed(content_type: Vec<u8>, content: Vec<u8>) -> (r: Response)
    ensures
        r@ == typed_view(content_type@, content@),
{
    let r = Response::new(200, "OK").header("Content-Type", content_type).with_body(content);
    assert(r@.headers =~= typed_view(content_type@, content@).headers);
    r
}

/// What `session_started` holds: a redirect to the home page that sets the
/// session cookie.
pub open spec fn session_started_view(token: Seq<u8>) -> ResponseView {
    ResponseView {
        headers: seq![
            (
                "Set-Cookie".spec_bytes(),
                "token=".spec_bytes() + token + "; Path=/".spec_bytes(),
            ),
            ("Location".spec_bytes(), "/".spec_bytes()),
            ("Content-Length".spec_bytes(), "0".spec_bytes()),
        ],
        ..plain(301, "Moved Permanently".spec_bytes())
    }
}

/// The answer to a login that was accepted.
pub fn session_started(token: &[u8]) -> (r: Response)
    ensures
        r@ == session_started_view(token@),
{
    let mut cookie: Vec<u8> = bytes_of("token=");
    append(&mut cookie, token);
    append(&mut cookie, "; Path=/".as_bytes());
    let r = Response::new(301, "Moved Permanently").header("Set-Cookie", cookie).header(
        "Location",
        bytes_of("/"),
    ).header("Content-Length", bytes_of("0"));
    assert(r@.headers =~= session_started_view(token@).headers);
    r
}

/// What `session_ended` holds: a redirect to the home page that takes the
/// session cookie away.
pub open spec fn session_ended_view() -> ResponseView {
    ResponseView {
        headers: seq![
            ("Set-Cookie".spec_bytes(), "token=; Max-Age=0; Path=/".spec_bytes()),
            ("Location".spec_bytes(), "/".spec_bytes()),
            ("Content-Length".spec_bytes(), "0".spec_bytes()),
        ],
        ..plain(301, "OK".spec_bytes())
    }
}

/// The answer to a logout.
pub fn session_ended() -> (r: Response)
    ensures
        r@ == session_ended_view(),
{
    let r = Response::new(301, "OK").header(
        "Set-Cookie",
        bytes_of("token=; Max-Age=0; Path=/"),
    ).header("Location", bytes_of("/")).header("Content-Length", bytes_of("0"));
    assert(r@.headers =~= session_ended_view().headers);
    r
}

/// The answer to a logout as text, as it goes over the wire.
pub fn post_logout() -> (out: String)
    ensures
        out@
            == "HTTP/1.1 301 OK\r\nSet-Cookie: token=; Max-Age=0; Path=/\r\nLocation: /\r\nContent-Length: 0\r\n\r\n"@,
{
    String::from_str(
        "HTTP/1.1 301 OK\r\nSet-Cookie: token=; Max-Age=0; Path=/\r\nLocation: /\r\nContent-Length: 0\r\n\r\n",
    )
}

/// What `reaction_stored` holds.
pub open spec fn reaction_stored_view() -> ResponseView {
    page_view(" {\"status\": \"ok\"}".spec_bytes())
}

/// The answer to a reaction that was stored.
pub fn reaction_stored() -> (r: Response)
    ensures
        r@ == reaction_stored_view(),
{
    page(bytes_of(" {\"status\": \"ok\"}"))
}

} // verus!
