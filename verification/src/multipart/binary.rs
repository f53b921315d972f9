//! The scan that cuts a multipart body into its parts, and the extraction
//! of the image payload.

use vstd::prelude::*;
use vstd::string::*;
use vstd::utf8::encode_utf8;
use crate::bytes::{
    append, contains, find_from, find_subslice, first_occurrence, lemma_first_occurrence,
    next_occurrence,
};

verus! {

/// Why a body could not be decoded.
#[derive(Clone, Copy, Debug, PartialEq, Eq, Structural)]
pub enum MultipartError {
    /// The delimiter does not occur in the body.
    MalformedMultipart,
}

/// The delimiter that a boundary token stands for in a body: two hyphens
/// and the token.
pub open spec fn delimiter_of(token: Seq<u8>) -> Seq<u8> {
    seq![45u8, 45u8] + token
}

/// The delimiter that `token` stands for.
pub fn make_delimiter(token: &[u8]) -> (d: Vec<u8>)
    ensures
        d@ == delimiter_of(token@),
{
    let mut d: Vec<u8> = Vec::new();
    d.push(45);
    d.push(45);
    append(&mut d, token);
    assert(d@ =~= delimiter_of(token@));
    d
}

/// The four bytes that separate the headers of a part from its content.
pub open spec fn blank_line() -> Seq<u8> {
    seq![13u8, 10u8, 13u8, 10u8]
}

/// The parts that lie in `buf` from offset `start` on: each reaches from
/// the current offset to the next occurrence of `delimiter`, and the next
/// one begins behind that occurrence and the two bytes that follow it.
/// What follows the last occurrence is no part.
pub open spec fn parts_from(buf: Seq<u8>, delimiter: Seq<u8>, start: int) -> Seq<Seq<u8>>
    decreases buf.len() + 2 - start,
{
    if start < 0 || start > buf.len() {
        Seq::empty()
    } else {
        match next_occurrence(buf, delimiter, start) {
            None => Seq::empty(),
            Some(end) => {
                proof {
                    lemma_first_occurrence(buf.skip(start), delimiter);
                }
                seq![buf.subrange(start, end)] + parts_from(
                    buf,
                    delimiter,
                    end + delimiter.len() + 2,
                )
            },
        }
    }
}

/// The parts of a multipart body: what lies between one occurrence of
/// `delimiter` and the next, the two bytes behind each occurrence left out.
/// `None` where `delimiter` does not occur at all.
pub open spec fn raw_parts(buf: Seq<u8>, delimiter: Seq<u8>) -> Option<Seq<Seq<u8>>> {
    match first_occurrence(buf, delimiter) {
        None => None,
        Some(i) => Some(parts_from(buf, delimiter, i + delimiter.len() + 2)),
    }
}

/// Where the headers of `part` end: the offset of its first blank line.
pub open spec fn part_header_len(part: Seq<u8>) -> Option<int> {
    first_occurrence(part, blank_line())
}

/// The content of a part whose headers end at `h`: what follows the blank
/// line, without the last two bytes of the part (the line break in front
/// of the next delimiter).
pub open spec fn part_content(part: Seq<u8>, h: int) -> Seq<u8> {
    if h + 4 <= part.len() - 2 {
        part.subrange(h + 4, part.len() - 2)
    } else {
        Seq::empty()
    }
}

/// The text that marks the headers of an image part.
pub open spec fn image_marker() -> Seq<u8> {
    "Content-Type: image/".spec_bytes()
}

/// Whether a block of part headers declares an image.
pub open spec fn declares_image(headers: Seq<u8>) -> bool {
    first_occurrence(headers, image_marker()).is_some()
}

/// What one part adds to the image payload: its content if its headers
/// declare an image, nothing otherwise.
pub open spec fn image_content(part: Seq<u8>) -> Seq<u8> {
    match part_header_len(part) {
        None => Seq::empty(),
        Some(h) => if declares_image(part.take(h)) {
            part_content(part, h)
        } else {
            Seq::empty()
        },
    }
}

/// The contents of the image parts among `parts`, one after the other.
pub open spec fn concat_images(parts: Seq<Seq<u8>>) -> Seq<u8>
    decreases parts.len(),
{
    if parts.len() == 0 {
        Seq::empty()
    } else {
        image_content(parts[0]) + concat_images(parts.skip(1))
    }
}

/// The image payload of a multipart buffer: the contents of its image
/// parts, one after the other. Where `delimiter` does not occur the buffer
/// is no multipart body, which is another thing than a body without an
/// image.
pub open spec fn image_payload(buf: Seq<u8>, delimiter: Seq<u8>) -> Result<
    Seq<u8>,
    MultipartError,
> {
    match raw_parts(buf, delimiter) {
        None => Err(MultipartError::MalformedMultipart),
        Some(parts) => Ok(concat_images(parts)),
    }
}

/// Whether `r` is the image payload that lies in `buf` between the
/// occurrences of `delimiter`.
pub open spec fn is_image_payload(
    r: Result<Vec<u8>, MultipartError>,
    buf: Seq<u8>,
    delimiter: Seq<u8>,
) -> bool {
    match image_payload(buf, delimiter) {
        Ok(payload) => r matches Ok(image) && image@ == payload,
        Err(e) => r matches Err(x) && x == e,
    }
}

/// The offset at which the part behind an occurrence of the delimiter at
/// `at` begins, if it still lies within a buffer of `len` bytes.
fn next_part_start(len: usize, at: usize, delimiter_len: usize) -> (start: Option<usize>)
    requires
        at + delimiter_len <= len,
    ensures
        match start {
            Some(s) => s == at + delimiter_len + 2 && s <= len,
            None => at + delimiter_len + 2 > len,
        },
{
    let behind: usize = at + delimiter_len;
    if len - behind >= 2 {
        Some(behind + 2)
    } else {
        None
    }
}

/// The headers and the content of `part`, if it has a blank line.
pub fn split_part(part: &[u8]) -> (r: Option<(&[u8], &[u8])>)
    ensures
        match r {
            Some((headers, content)) => part_header_len(part@) matches Some(h)
                && headers@ == part@.take(h) && content@ == part_content(part@, h),
            None => part_header_len(part@) is None,
        },
{
    let marker: [u8; 4] = [13, 10, 13, 10];
    assert(marker@ =~= blank_line());
    proof {
        lemma_first_occurrence(part@, blank_line());
    }
    match find_subslice(part, marker.as_slice()) {
        None => None,
        Some(h) => {
            let headers: &[u8] = &part[0..h];
            assert(headers@ =~= part@.take(h as int));
            let n: usize = part.len();
            if n - h >= 6 {
                let content: &[u8] = &part[h + 4..n - 2];
                Some((headers, content))
            } else {
                let content: &[u8] = &part[0..0];
                assert(content@ =~= Seq::<u8>::empty());
                Some((headers, content))
            }
        },
    }
}

/// The byte ranges `spans` cut out of `buf`.
pub open spec fn cut(buf: Seq<u8>, spans: Seq<(usize, usize)>) -> Seq<Seq<u8>> {
    Seq::new(spans.len(), |i: int| buf.subrange(spans[i].0 as int, spans[i].1 as int))
}

/// Where the parts of a multipart buffer lie: for each part the offset of
/// its first byte and the offset behind its last. `None` where
/// `delimiter` does not occur in `buffer`.
pub fn scan_parts(buffer: &[u8], delimiter: &[u8]) -> (r: Option<Vec<(usize, usize)>>)
    ensures
        match r {
            Some(spans) => raw_parts(buffer@, delimiter@) == Some(cut(buffer@, spans@))
                && forall|i: int|
                0 <= i < spans@.len() ==> (#[trigger] spans@[i]).0 <= spans@[i].1 <= buffer@.len(),
            None => raw_parts(buffer@, delimiter@) is None,
        },
{
    let mut spans: Vec<(usize, usize)> = Vec::new();
    let len: usize = buffer.len();
    let dlen: usize = delimiter.len();
    proof {
        lemma_first_occurrence(buffer@, delimiter@);
    }
    let first: usize = match find_subslice(buffer, delimiter) {
        None => { return None; },
        Some(i) => i,
    };
    let mut cursor: Option<usize> = next_part_start(len, first, dlen);
    assert(cut(buffer@, spans@) =~= Seq::<Seq<u8>>::empty());
    loop
        invariant
            len == buffer@.len(),
            dlen == delimiter@.len(),
            cursor matches Some(s) ==> s <= len,
            forall|i: int|
                0 <= i < spans@.len() ==> (#[trigger] spans@[i]).0 <= spans@[i].1 <= buffer@.len(),
            raw_parts(buffer@, delimiter@) == Some(
                cut(buffer@, spans@) + (match cursor {
                    Some(s) => parts_from(buffer@, delimiter@, s as int),
                    None => Seq::empty(),
                }),
            ),
        decreases
            match cursor {
                Some(s) => len - s + 1,
                None => 0,
            },
    {
        let ghost before = cut(buffer@, spans@);
        let start: usize = match cursor {
            None => {
                assert(before + Seq::<Seq<u8>>::empty() =~= before);
                return Some(spans);
            },
            Some(s) => s,
        };
        match find_from(buffer, delimiter, start) {
            None => {
                assert(before + Seq::<Seq<u8>>::empty() =~= before);
                return Some(spans);
            },
            Some(end) => {
                let ghost part = buffer@.subrange(start as int, end as int);
                let ghost rest = parts_from(buffer@, delimiter@, end + dlen + 2);
                spans.push((start, end));
                assert(cut(buffer@, spans@) =~= before.push(part));
                cursor = next_part_start(len, end, dlen);
                assert(cursor is None ==> rest =~= Seq::<Seq<u8>>::empty());
                assert(before + (seq![part] + rest) =~= before.push(part) + rest);
            },
        }
    }
}

/// The image payload that lies between the occurrences of `delimiter` in
/// `buffer`; `MalformedMultipart` where `delimiter` does not occur.
pub fn extract_images(buffer: &[u8], delimiter: &[u8]) -> (r: Result<Vec<u8>, MultipartError>)
    ensures
        is_image_payload(r, buffer@, delimiter@),
{
    let mut image: Vec<u8> = Vec::new();
    let marker: &[u8] = "Content-Type: image/".as_bytes();
    let spans: Vec<(usize, usize)> = match scan_parts(buffer, delimiter) {
        None => { return Err(MultipartError::MalformedMultipart); },
        Some(spans) => spans,
    };
    let ghost raws = cut(buffer@, spans@);
    let n: usize = spans.len();
    let mut i: usize = 0;
    assert(raws.skip(0) =~= raws);
    while i < n
        invariant
            n == spans@.len(),
            i <= n,
            marker@ == image_marker(),
            raws == cut(buffer@, spans@),
            forall|k: int|
                0 <= k < spans@.len() ==> (#[trigger] spans@[k]).0 <= spans@[k].1 <= buffer@.len(),
            concat_images(raws) == image@ + concat_images(raws.skip(i as int)),
        decreases n - i,
    {
        let (start, end) = spans[i];
        let part: &[u8] = &buffer[start..end];
        let ghost rest = raws.skip(i as int);
        assert(rest[0] == part@);
        assert(rest.skip(1) =~= raws.skip(i + 1));
        let ghost before = image@;
        match split_part(part) {
            None => {},
            Some((headers, content)) => {
                if contains(headers, marker) {
                    append(&mut image, content);
                }
            },
        }
        assert(image@ == before + image_content(part@));
        assert(before + (image_content(part@) + concat_images(raws.skip(i + 1))) =~= (before
            + image_content(part@)) + concat_images(raws.skip(i + 1)));
        i += 1;
    }
    assert(raws.skip(n as int) =~= Seq::<Seq<u8>>::empty());
    Ok(image)
}

/// The image payload of a multipart request. `boundary` is the token that
/// the `Content-Type` header gives; the parts of `complete_buffer` lie
/// between the occurrences of the delimiter, two hyphens and that token.
///
/// The payload is the content of every part whose headers declare an
/// image: what follows the first blank line of the part, without the one
/// line break in front of the next delimiter, cut out of the buffer byte
/// for byte. A buffer in which the delimiter does not occur is
/// `MalformedMultipart`.
pub fn find_binary(complete_buffer: Vec<u8>, boundary: String) -> (r: Result<
    Vec<u8>,
    MultipartError,
>)
    ensures
        is_image_payload(r, complete_buffer@, delimiter_of(encode_utf8(boundary@))),
{
    let delimiter: Vec<u8> = make_delimiter(boundary.as_str().as_bytes());
    extract_images(complete_buffer.as_slice(), delimiter.as_slice())
}

} // verus!
