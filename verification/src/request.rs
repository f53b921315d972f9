//! The request parser: from the bytes of one message to its method, its
//! path, its header fields and its body.

use vstd::prelude::*;
use vstd::string::*;
use crate::bytes::{
    after_last, contains, copy_range, crlf, first_occurrence, lemma_first_occurrence,
    lemma_first_occurrence_is, lemma_occurs_at_byte, occurs_at, same_bytes, split_words, text_after_last, views, words,
};
use crate::framer::{
    declared_after, head_of, lemma_head_is_header_block, lemma_scan_head_bounds,
    lemma_scan_head_cut, message_len, scan_head,
};
use crate::headers::{
    fields_view, find_header, first_line, header_block_len, header_fields, header_lines,
    is_written_name, is_written_value, lemma_empty_line_ends_headers, lemma_written_lines_then,
    line_feed, line_step, lookup, parse_header_block, read_line, strip_cr, trimmed_fields,
};

verus! {

/// The method of a request, as far as the engine tells methods apart.
#[derive(Clone, Copy, Debug, PartialEq, Eq, Structural)]
pub enum Method {
    Get,
    Post,
    Other,
}

/// Why a message is no request.
#[derive(Clone, Copy, Debug, PartialEq, Eq, Structural)]
pub enum ParseError {
    /// The message holds no byte at all.
    EmptyRequest,
    /// The first line holds fewer than three words.
    MalformedStartLine,
}

/// A request in structured form. The header fields stand in the order in
/// which they arrived, their names as they were written; the body is the
/// bytes behind the empty line, untouched.
#[derive(Clone, Debug, PartialEq, Eq)]
pub struct ParsedRequest {
    pub method: Method,
    pub path: Vec<u8>,
    pub headers: Vec<(Vec<u8>, Vec<u8>)>,
    pub body: Vec<u8>,
}

/// What a `ParsedRequest` holds.
pub struct RequestView {
    pub method: Method,
    pub path: Seq<u8>,
    pub headers: Seq<(Seq<u8>, Seq<u8>)>,
    pub body: Seq<u8>,
}

impl View for ParsedRequest {
    type V = RequestView;

    open spec fn view(&self) -> RequestView {
        RequestView {
            method: self.method,
            path: self.path@,
            headers: fields_view(self.headers@),
            body: self.body@,
        }
    }
}

/// The method that a word names: `GET` and `POST` in capitals, anything
/// else is `Other`.
pub open spec fn method_of(word: Seq<u8>) -> Method {
    if word == "GET".spec_bytes() {
        Method::Get
    } else if word == "POST".spec_bytes() {
        Method::Post
    } else {
        Method::Other
    }
}

/// What a message parses to. The first line gives the method and the path
/// as its first two words and must hold a third, the version; more words
/// are passed over. The lines behind it, up to the first empty one, are the
/// header fields. Everything behind that empty line is the body.
pub open spec fn parse_request(raw: Seq<u8>) -> Result<RequestView, ParseError> {
    if raw.len() == 0 {
        Err(ParseError::EmptyRequest)
    } else {
        let start = words(first_line(raw));
        if start.len() < 3 {
            Err(ParseError::MalformedStartLine)
        } else {
            let rest = raw.skip(line_step(raw));
            Ok(
                RequestView {
                    method: method_of(start[0]),
                    path: start[1],
                    headers: header_fields(rest),
                    body: rest.skip(header_block_len(rest)),
                },
            )
        }
    }
}

/// A request parses to what its lines say, in the order in which they
/// say it. For a first line, any number of header lines `name: value`, an
/// empty line and a body, all lines ending in a carriage return and a line
/// feed, the parsed request has one header field for each header line, in
/// the order of the lines: none is dropped, merged or moved, a name that
/// comes twice stays two fields, no letter of a name changes its case, and
/// each name and each value stands without the white space around it. The
/// body is what follows the empty line, byte for byte.
pub proof fn lemma_written_request_parses(
    start: Seq<u8>,
    fields: Seq<(Seq<u8>, Seq<u8>)>,
    body: Seq<u8>,
)
    requires
        forall|i: int| 0 <= i < start.len() ==> start[i] != 10u8,
        words(start).len() >= 3,
        forall|i: int|
            0 <= i < fields.len() ==> is_written_name((#[trigger] fields[i]).0)
                && is_written_value(fields[i].1),
    ensures
        parse_request(start + crlf() + header_lines(fields) + crlf() + body) == Ok::<
            RequestView,
            ParseError,
        >(
            RequestView {
                method: method_of(words(start)[0]),
                path: words(start)[1],
                headers: trimmed_fields(fields),
                body: body,
            },
        ),
{
    let rest = header_lines(fields) + crlf() + body;
    let raw = start + crlf() + header_lines(fields) + crlf() + body;
    let end = start.len() as int;
    assert(raw =~= start + crlf() + rest);
    lemma_occurs_at_byte(raw, 10u8, end + 1);
    assert forall|j: int| 0 <= j < end + 1 implies !occurs_at(raw, line_feed(), j) by {
        lemma_occurs_at_byte(raw, 10u8, j);
    }
    lemma_first_occurrence_is(raw, line_feed(), end + 1);
    assert(raw.take(end + 1) =~= start + seq![13u8]);
    assert(strip_cr(raw.take(end + 1)) =~= start);
    assert(raw.skip(end + 2) =~= rest);
    lemma_empty_line_ends_headers(body);
    lemma_written_lines_then(fields, crlf() + body);
    assert(header_lines(fields) + (crlf() + body) =~= rest);
    assert(trimmed_fields(fields) + Seq::<(Seq<u8>, Seq<u8>)>::empty() =~= trimmed_fields(
        fields,
    ));
    assert(rest.skip(header_lines(fields).len() as int + 2) =~= body);
}

/// The body of a framed request is what the framer took for the body.
/// Where a stream holds a complete request that parses, and no line of its
/// head is empty but for a bare line feed, the parser finds the body where
/// the framer found it, so that the body of the parsed request is exactly
/// as long as the head declares: as long as the last `Content-Length` says,
/// and empty without one.
pub proof fn lemma_framed_request_body(stream: Seq<u8>)
    requires
        message_len(stream) is Some,
        parse_request(stream.take(message_len(stream)->0)) is Ok,
        forall|j: int|
            0 <= j && j + 1 < (head_of(stream)->0).0 ==> !(stream[j] == 10u8
                && #[trigger] stream[j + 1] == 10u8),
    ensures
        head_of(stream) matches Some((h, l)) && parse_request(stream.take(h + l)) matches Ok(
            request,
        ) && request.body == stream.subrange(h, h + l) && request.body.len() == l,
{
    let (h, l) = head_of(stream)->0;
    lemma_scan_head_bounds(stream, 0);
    let message = stream.take(h + l);
    lemma_scan_head_cut(stream, h + l, 0);
    lemma_first_occurrence(message, line_feed());
    let i = first_occurrence(message, line_feed())->0;
    lemma_occurs_at_byte(message, 10u8, i);
    let line = message.take(i + 1);
    if line == crlf() {
        assert(line.len() == 2);
        assert(message.take(1) =~= seq![line[0]]);
        assert(strip_cr(message.take(1)) =~= Seq::<u8>::empty());
        assert(words(Seq::<u8>::empty()).len() == 0);
    }
    let rest = message.skip(i + 1);
    let declared = declared_after(first_line(message), 0);
    lemma_scan_head_bounds(rest, declared);
    assert(rest[0] == message[i + 1]);
    assert(message[i] == stream[i]);
    assert(message[i + 1] == stream[i + 1]);
    assert forall|j: int| 0 <= j && j + 1 < (scan_head(rest, declared)->0).0 implies !(rest[j]
        == 10u8 && #[trigger] rest[j + 1] == 10u8) by {
        assert(rest[j] == stream[i + 1 + j]);
        assert(rest[j + 1] == stream[i + 1 + j + 1]);
    }
    lemma_head_is_header_block(rest, declared);
    assert(rest.skip(h - i - 1) =~= stream.subrange(h, h + l));
}

/// The method that `word` names.
pub fn read_method(word: &[u8]) -> (m: Method)
    ensures
        m == method_of(word@),
{
    if same_bytes(word, "GET".as_bytes()) {
        Method::Get
    } else if same_bytes(word, "POST".as_bytes()) {
        Method::Post
    } else {
        Method::Other
    }
}

/// Parses one message.
pub fn parse_http_request(raw: &[u8]) -> (r: Result<ParsedRequest, ParseError>)
    ensures
        match parse_request(raw@) {
            Ok(v) => r matches Ok(req) && req@ == v,
            Err(e) => r matches Err(x) && x == e,
        },
{
    if raw.len() == 0 {
        return Err(ParseError::EmptyRequest);
    }
    assert(raw@.skip(0) =~= raw@);
    let (line, next) = read_line(raw, 0);
    let start: Vec<Vec<u8>> = split_words(line);
    if start.len() < 3 {
        return Err(ParseError::MalformedStartLine);
    }
    let method: Method = read_method(start[0].as_slice());
    let path: Vec<u8> = copy_range(start[1].as_slice(), 0, start[1].len());
    assert(path@ =~= start@[1]@);
    let (headers, body_start) = parse_header_block(raw, next);
    let body: Vec<u8> = copy_range(raw, body_start, raw.len());
    assert(body@ =~= raw@.skip(next as int).skip(header_block_len(raw@.skip(next as int))));
    assert(views(start@)[0] == start@[0]@);
    assert(views(start@)[1] == start@[1]@);
    Ok(ParsedRequest { method, path, headers, body })
}

/// The content type that a list of header fields declares: the value of
/// `Content-Type`, and `text/plain` where there is no such field.
pub open spec fn content_type_of(fields: Seq<(Seq<u8>, Seq<u8>)>) -> Seq<u8> {
    match lookup(fields, "Content-Type".spec_bytes()) {
        Some(v) => v,
        None => "text/plain".spec_bytes(),
    }
}

/// Whether the header fields announce a `multipart/form-data` body.
pub open spec fn announces_multipart(fields: Seq<(Seq<u8>, Seq<u8>)>) -> bool {
    first_occurrence(content_type_of(fields), "multipart/form-data".spec_bytes()).is_some()
}

/// The boundary token that the header fields give: what follows the last
/// `boundary=` in the content type.
pub open spec fn boundary_of(fields: Seq<(Seq<u8>, Seq<u8>)>) -> Seq<u8> {
    after_last(content_type_of(fields), "boundary=".spec_bytes())
}

/// The session token that the header fields carry: what follows the last
/// `token=` in the value of `Cookie`, the whole value where it holds no
/// `token=`, and nothing where there is no `Cookie` field. The token is
/// never looked into.
pub open spec fn session_token_of(fields: Seq<(Seq<u8>, Seq<u8>)>) -> Seq<u8> {
    match lookup(fields, "Cookie".spec_bytes()) {
        Some(v) => after_last(v, "token=".spec_bytes()),
        None => Seq::empty(),
    }
}

/// The content type that `headers` declare.
pub fn content_type(headers: &Vec<(Vec<u8>, Vec<u8>)>) -> (t: Vec<u8>)
    ensures
        t@ == content_type_of(fields_view(headers@)),
{
    match find_header(headers, "Content-Type".as_bytes()) {
        Some(v) => {
            let t: Vec<u8> = copy_range(v.as_slice(), 0, v.len());
            assert(t@ =~= v@);
            t
        },
        None => {
            let plain: &[u8] = "text/plain".as_bytes();
            let t: Vec<u8> = copy_range(plain, 0, plain.len());
            assert(t@ =~= plain@);
            t
        },
    }
}

/// Whether `headers` announce a `multipart/form-data` body.
pub fn is_multipart(headers: &Vec<(Vec<u8>, Vec<u8>)>) -> (b: bool)
    ensures
        b == announces_multipart(fields_view(headers@)),
{
    let t: Vec<u8> = content_type(headers);
    contains(t.as_slice(), "multipart/form-data".as_bytes())
}

/// The boundary token that `headers` give.
pub fn boundary_token(headers: &Vec<(Vec<u8>, Vec<u8>)>) -> (token: Vec<u8>)
    ensures
        token@ == boundary_of(fields_view(headers@)),
{
    let t: Vec<u8> = content_type(headers);
    let rest: &[u8] = text_after_last(t.as_slice(), "boundary=".as_bytes());
    let token: Vec<u8> = copy_range(rest, 0, rest.len());
    assert(token@ =~= rest@);
    token
}

/// The session token that `headers` carry.
pub fn session_token(headers: &Vec<(Vec<u8>, Vec<u8>)>) -> (token: Vec<u8>)
    ensures
        token@ == session_token_of(fields_view(headers@)),
{
    match find_header(headers, "Cookie".as_bytes()) {
        Some(v) => {
            let rest: &[u8] = text_after_last(v.as_slice(), "token=".as_bytes());
            let token: Vec<u8> = copy_range(rest, 0, rest.len());
            assert(token@ =~= rest@);
            token
        },
        None => Vec::new(),
    }
}

} // verus!
