//! Decoding of `multipart/form-data` bodies.
//!
//! The body is scanned as raw bytes from the first byte to the last: the
//! payload of a file part is cut out of the buffer that was received, so
//! bytes that are no valid text reach the caller unchanged.

use vstd::prelude::*;
use vstd::string::*;
use crate::bytes::{contains, copy_range, find_from, find_subslice, first_occurrence};
use crate::headers::{find_header, header_fields, lookup, parse_headers};
use crate::multipart::binary::{
    cut, declares_image, delimiter_of, make_delimiter, part_content, part_header_len, raw_parts,
    scan_parts, split_part, MultipartError,
};

pub mod binary;
pub mod compose;

verus! {

/// One field of a submitted form.
#[derive(Clone, Debug, PartialEq, Eq)]
pub struct MultipartPart {
    pub field_name: Vec<u8>,
    /// The name of the file as the sender gave it, where the part has one.
    pub file_name: Option<Vec<u8>>,
    /// Whether the headers of the part declare an image.
    pub is_binary: bool,
    /// The content of a part that is no image.
    pub text_value: Option<Vec<u8>>,
    /// The content of an image part, byte for byte as it stood in the body.
    pub binary_value: Option<Vec<u8>>,
}

/// What a `MultipartPart` holds.
pub struct PartView {
    pub field_name: Seq<u8>,
    pub file_name: Option<Seq<u8>>,
    pub is_binary: bool,
    pub text_value: Option<Seq<u8>>,
    pub binary_value: Option<Seq<u8>>,
}

/// What an optional byte string holds.
pub open spec fn option_view(o: Option<Vec<u8>>) -> Option<Seq<u8>> {
    match o {
        Some(v) => Some(v@),
        None => None,
    }
}

impl View for MultipartPart {
    type V = PartView;

    open spec fn view(&self) -> PartView {
        PartView {
            field_name: self.field_name@,
            file_name: option_view(self.file_name),
            is_binary: self.is_binary,
            text_value: option_view(self.text_value),
            binary_value: option_view(self.binary_value),
        }
    }
}

/// What a list of parts holds.
pub open spec fn parts_view(parts: Seq<MultipartPart>) -> Seq<PartView> {
    Seq::new(parts.len(), |i: int| parts[i]@)
}

/// The name of the header that describes a part.
pub open spec fn disposition_header() -> Seq<u8> {
    "Content-Disposition".spec_bytes()
}

/// What introduces the field name in a `Content-Disposition` value.
pub open spec fn name_key() -> Seq<u8> {
    " name=\"".spec_bytes()
}

/// What introduces the file name in a `Content-Disposition` value.
pub open spec fn file_name_key() -> Seq<u8> {
    "filename=\"".spec_bytes()
}

/// The quoted text behind the first occurrence of `key` in `value`: what
/// stands between the end of `key` and the next double quote. `None` where
/// `key` does not occur or no double quote follows it.
pub open spec fn quoted(value: Seq<u8>, key: Seq<u8>) -> Option<Seq<u8>> {
    match first_occurrence(value, key) {
        None => None,
        Some(i) => {
            let rest = value.skip(i + key.len());
            match first_occurrence(rest, seq![34u8]) {
                None => None,
                Some(j) => Some(rest.take(j)),
            }
        },
    }
}

/// The form field that one part of a body holds. A part without a blank
/// line, without a `Content-Disposition` header or without a quoted field
/// name in that header holds none. The content is a binary value where the
/// headers declare an image, and a text value otherwise.
pub open spec fn part_of(raw: Seq<u8>) -> Option<PartView> {
    match part_header_len(raw) {
        None => None,
        Some(h) => {
            let headers = raw.take(h);
            let content = part_content(raw, h);
            match lookup(header_fields(headers), disposition_header()) {
                None => None,
                Some(d) => match quoted(d, name_key()) {
                    None => None,
                    Some(name) => Some(
                        PartView {
                            field_name: name,
                            file_name: quoted(d, file_name_key()),
                            is_binary: declares_image(headers),
                            text_value: if declares_image(headers) {
                                None
                            } else {
                                Some(content)
                            },
                            binary_value: if declares_image(headers) {
                                Some(content)
                            } else {
                                None
                            },
                        },
                    ),
                },
            }
        },
    }
}

/// The form fields that a list of parts holds, in order; a part that holds
/// none is passed over.
pub open spec fn fields_of(raws: Seq<Seq<u8>>) -> Seq<PartView>
    decreases raws.len(),
{
    if raws.len() == 0 {
        Seq::empty()
    } else {
        (match part_of(raws[0]) {
            Some(p) => seq![p],
            None => Seq::empty(),
        }) + fields_of(raws.skip(1))
    }
}

/// What a body decodes to under a boundary token.
pub open spec fn decoded(body: Seq<u8>, token: Seq<u8>) -> Result<Seq<PartView>, MultipartError> {
    match raw_parts(body, delimiter_of(token)) {
        None => Err(MultipartError::MalformedMultipart),
        Some(raws) => Ok(fields_of(raws)),
    }
}

/// Whether `r` is what decoding `body` under the boundary token `token`
/// gives.
pub open spec fn is_decoding(
    r: Result<Vec<MultipartPart>, MultipartError>,
    body: Seq<u8>,
    token: Seq<u8>,
) -> bool {
    match decoded(body, token) {
        Ok(fields) => r matches Ok(parts) && parts_view(parts@) == fields,
        Err(e) => r matches Err(x) && x == e,
    }
}

/// Decoding the same body twice gives the same: both times the same
/// failure, or both times parts that hold the same.
pub proof fn lemma_decode_twice(
    body: Seq<u8>,
    token: Seq<u8>,
    first: Result<Vec<MultipartPart>, MultipartError>,
    second: Result<Vec<MultipartPart>, MultipartError>,
)
    requires
        is_decoding(first, body, token),
        is_decoding(second, body, token),
    ensures
        match first {
            Ok(a) => second matches Ok(b) && parts_view(a@) == parts_view(b@),
            Err(x) => second matches Err(y) && x == y,
        },
{
}

/// The quoted text behind the first occurrence of `key` in `value`.
pub fn read_quoted(value: &[u8], key: &[u8]) -> (r: Option<Vec<u8>>)
    ensures
        option_view(r) == quoted(value@, key@),
{
    let quote: [u8; 1] = [34];
    assert(quote@ =~= seq![34u8]);
    let i: usize = match find_subslice(value, key) {
        None => { return None; },
        Some(i) => i,
    };
    let n: usize = value.len();
    assert(i + key@.len() <= n);
    let from: usize = i + key.len();
    match find_from(value, quote.as_slice(), from) {
        None => None,
        Some(j) => {
            let text: Vec<u8> = copy_range(value, from, j);
            assert(text@ =~= value@.skip(from as int).take(j - from));
            Some(text)
        },
    }
}

/// The form field that one part of a body holds.
pub fn read_part(raw: &[u8]) -> (r: Option<MultipartPart>)
    ensures
        match r {
            Some(p) => part_of(raw@) == Some(p@),
            None => part_of(raw@) is None,
        },
{
    let (headers, content) = match split_part(raw) {
        None => { return None; },
        Some(pair) => pair,
    };
    let fields: Vec<(Vec<u8>, Vec<u8>)> = parse_headers(headers);
    let disposition: &Vec<u8> = match find_header(&fields, "Content-Disposition".as_bytes()) {
        None => { return None; },
        Some(d) => d,
    };
    let field_name: Vec<u8> = match read_quoted(disposition.as_slice(), " name=\"".as_bytes()) {
        None => { return None; },
        Some(name) => name,
    };
    let file_name: Option<Vec<u8>> = read_quoted(disposition.as_slice(), "filename=\"".as_bytes());
    let is_binary: bool = contains(headers, "Content-Type: image/".as_bytes());
    let value: Vec<u8> = copy_range(content, 0, content.len());
    assert(value@ =~= content@);
    if is_binary {
        Some(
            MultipartPart {
                field_name,
                file_name,
                is_binary,
                text_value: None,
                binary_value: Some(value),
            },
        )
    } else {
        Some(
            MultipartPart {
                field_name,
                file_name,
                is_binary,
                text_value: Some(value),
                binary_value: None,
            },
        )
    }
}

/// Decodes a `multipart/form-data` body. `boundary` is the token that the
/// `Content-Type` header of the request gives.
///
/// The parts lie between the occurrences of the delimiter, two hyphens and
/// the token; what follows the last occurrence is no part. The result
/// depends on the two arguments alone.
pub fn decode_multipart(body: &[u8], boundary: &[u8]) -> (r: Result<
    Vec<MultipartPart>,
    MultipartError,
>)
    ensures
        is_decoding(r, body@, boundary@),
{
    let delimiter: Vec<u8> = make_delimiter(boundary);
    let spans: Vec<(usize, usize)> = match scan_parts(body, delimiter.as_slice()) {
        None => { return Err(MultipartError::MalformedMultipart); },
        Some(spans) => spans,
    };
    let ghost raws = cut(body@, spans@);
    let mut parts: Vec<MultipartPart> = Vec::new();
    let n: usize = spans.len();
    let mut i: usize = 0;
    assert(raws.skip(0) =~= raws);
    assert(parts_view(parts@) =~= Seq::<PartView>::empty());
    while i < n
        invariant
            n == spans@.len(),
            i <= n,
            raws == cut(body@, spans@),
            forall|k: int|
                0 <= k < spans@.len() ==> (#[trigger] spans@[k]).0 <= spans@[k].1 <= body@.len(),
            fields_of(raws) == parts_view(parts@) + fields_of(raws.skip(i as int)),
        decreases n - i,
    {
        let (start, end) = spans[i];
        let raw: &[u8] = &body[start..end];
        let ghost rest = raws.skip(i as int);
        assert(rest[0] == raw@);
        assert(rest.skip(1) =~= raws.skip(i + 1));
        let ghost before = parts_view(parts@);
        match read_part(raw) {
            None => {
                assert(before + (Seq::<PartView>::empty() + fields_of(raws.skip(i + 1))) =~= before
                    + fields_of(raws.skip(i + 1)));
            },
            Some(p) => {
                let ghost pv = p@;
                parts.push(p);
                assert(parts_view(parts@) =~= before.push(pv));
                assert(before + (seq![pv] + fields_of(raws.skip(i + 1))) =~= before.push(pv)
                    + fields_of(raws.skip(i + 1)));
            },
        }
        i += 1;
    }
    assert(raws.skip(n as int) =~= Seq::<Seq<u8>>::empty());
    assert(parts_view(parts@) + Seq::<PartView>::empty() =~= parts_view(parts@));
    Ok(parts)
}

} // verus!
