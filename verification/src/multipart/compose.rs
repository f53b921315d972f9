//! How a multipart body is written, and the proof that decoding gives back
//! what was written.

use vstd::prelude::*;
use vstd::string::*;
use crate::bytes::{
    crlf, first_occurrence, is_space, lemma_first_occurrence, lemma_first_occurrence_is,
    lemma_occurs_at_byte, next_occurrence, occurs_at,
};
use crate::headers::{
    header_fields, header_lines, is_field_name, is_plain, lemma_blank_line_behind_headers,
    lemma_header_lines_open, lookup,
};
use crate::multipart::binary::{
    blank_line, concat_images, declares_image, delimiter_of, image_content, image_marker,
    image_payload, part_content, part_header_len, parts_from, raw_parts, MultipartError,
};
use crate::multipart::{
    decoded, disposition_header, fields_of, file_name_key, name_key, part_of, quoted, PartView,
};

verus! {

/// What follows an occurrence of the delimiter in a body that holds the
/// parts `raws`: two hyphens and a line break behind the last occurrence;
/// otherwise a line break, the next part, the delimiter again, and what
/// follows that.
pub open spec fn written_behind(delimiter: Seq<u8>, raws: Seq<Seq<u8>>) -> Seq<u8>
    decreases raws.len(),
{
    if raws.len() == 0 {
        seq![45u8, 45u8] + crlf()
    } else {
        crlf() + raws[0] + delimiter + written_behind(delimiter, raws.skip(1))
    }
}

/// The body that holds the parts `raws` between occurrences of
/// `delimiter`.
pub open spec fn written_parts(delimiter: Seq<u8>, raws: Seq<Seq<u8>>) -> Seq<u8> {
    delimiter + written_behind(delimiter, raws)
}

/// Whether a part can stand in a body under `delimiter`: it ends with a
/// line feed, and the delimiter does not occur in it.
pub open spec fn fits(raw: Seq<u8>, delimiter: Seq<u8>) -> bool {
    &&& raw.len() > 0
    &&& raw.last() == 10u8
    &&& first_occurrence(raw, delimiter) is None
}

/// Whether `delimiter` can delimit parts: it starts with a hyphen and
/// holds no line feed.
pub open spec fn delimits(delimiter: Seq<u8>) -> bool {
    &&& delimiter.len() >= 2
    &&& delimiter[0] == 45u8
    &&& forall|i: int| 0 <= i < delimiter.len() ==> delimiter[i] != 10u8
}

/// In a part that fits, followed by the delimiter, the delimiter occurs
/// first where the part ends.
proof fn lemma_delimiter_behind_part(raw: Seq<u8>, delimiter: Seq<u8>, more: Seq<u8>)
    requires
        delimits(delimiter),
        fits(raw, delimiter),
    ensures
        first_occurrence(raw + delimiter + more, delimiter) == Some(raw.len() as int),
{
    let text = raw + delimiter + more;
    let n = raw.len() as int;
    let d = delimiter.len() as int;
    assert(text.subrange(n, n + d) =~= delimiter);
    lemma_first_occurrence(raw, delimiter);
    assert forall|j: int| 0 <= j < n implies !occurs_at(text, delimiter, j) by {
        if occurs_at(text, delimiter, j) {
            if j + d <= n {
                assert(text.subrange(j, j + d) =~= raw.subrange(j, j + d));
                assert(occurs_at(raw, delimiter, j));
            } else {
                assert(text.subrange(j, j + d)[n - 1 - j] == text[n - 1]);
                assert(text[n - 1] == raw.last());
            }
        }
    }
    lemma_first_occurrence_is(text, delimiter, n);
}

/// Behind the closing delimiter no part begins.
proof fn lemma_scan_closing(front: Seq<u8>, delimiter: Seq<u8>)
    requires
        delimits(delimiter),
    ensures
        parts_from(
            front + (seq![45u8, 45u8] + crlf()),
            delimiter,
            front.len() as int + 2,
        ) == Seq::<Seq<u8>>::empty(),
{
    let text = front + (seq![45u8, 45u8] + crlf());
    let start = front.len() as int + 2;
    assert(text.len() == start + 2);
    assert(text.skip(start) =~= crlf());
    lemma_first_occurrence(crlf(), delimiter);
    if first_occurrence(crlf(), delimiter) is Some {
        let j = first_occurrence(crlf(), delimiter)->0;
        assert(crlf().subrange(j, j + delimiter.len())[0] == delimiter[0]);
    }
    assert(next_occurrence(text, delimiter, start) is None);
}

/// Behind a delimiter and a line break, the first part ends where the
/// next delimiter begins, and the scan goes on behind that delimiter.
proof fn lemma_scan_step(front: Seq<u8>, delimiter: Seq<u8>, raw: Seq<u8>, more: Seq<u8>)
    requires
        delimits(delimiter),
        fits(raw, delimiter),
    ensures
        parts_from(front + (crlf() + raw + delimiter + more), delimiter, front.len() as int + 2)
            == seq![raw] + parts_from(
            front + (crlf() + raw + delimiter + more),
            delimiter,
            front.len() as int + 2 + raw.len() + delimiter.len() + 2,
        ),
{
    let text = front + (crlf() + raw + delimiter + more);
    let start = front.len() as int + 2;
    assert(text.len() == start + raw.len() + delimiter.len() + more.len());
    assert(text.skip(start) =~= raw + delimiter + more);
    lemma_delimiter_behind_part(raw, delimiter, more);
    assert(next_occurrence(text, delimiter, start) == Some(start + raw.len()));
    assert(text.subrange(start, start + raw.len()) =~= raw);
}

/// Scanning what was written finds the parts that were written.
proof fn lemma_scan_written(front: Seq<u8>, delimiter: Seq<u8>, raws: Seq<Seq<u8>>)
    requires
        delimits(delimiter),
        forall|i: int| 0 <= i < raws.len() ==> fits(#[trigger] raws[i], delimiter),
    ensures
        parts_from(
            front + written_behind(delimiter, raws),
            delimiter,
            front.len() as int + 2,
        ) == raws,
    decreases raws.len(),
{
    if raws.len() == 0 {
        lemma_scan_closing(front, delimiter);
        assert(raws =~= Seq::<Seq<u8>>::empty());
    } else {
        let raw = raws[0];
        let others = raws.skip(1);
        let more = written_behind(delimiter, others);
        let text = front + (crlf() + raw + delimiter + more);
        assert(front + written_behind(delimiter, raws) =~= text);
        lemma_scan_step(front, delimiter, raw, more);
        let next_front = front + crlf() + raw + delimiter;
        assert(text =~= next_front + more);
        assert forall|i: int| 0 <= i < others.len() implies fits(
            #[trigger] others[i],
            delimiter,
        ) by {
            assert(others[i] == raws[i + 1]);
        }
        lemma_scan_written(next_front, delimiter, others);
        assert(next_front.len() + 2 == front.len() + 2 + raw.len() + delimiter.len() + 2);
        assert(seq![raw] + others =~= raws);
    }
}

/// The parts of a written body are the parts that were written into it,
/// in the same order and byte for byte.
pub proof fn lemma_written_parts(delimiter: Seq<u8>, raws: Seq<Seq<u8>>)
    requires
        delimits(delimiter),
        forall|i: int| 0 <= i < raws.len() ==> fits(#[trigger] raws[i], delimiter),
    ensures
        raw_parts(written_parts(delimiter, raws), delimiter) == Some(raws),
{
    let body = written_parts(delimiter, raws);
    assert(body.subrange(0, delimiter.len() as int) =~= delimiter);
    lemma_first_occurrence_is(body, delimiter, 0);
    lemma_scan_written(delimiter, delimiter, raws);
}

/// The value of the `Content-Disposition` header of a part: `form-data;`,
/// the field name in double quotes behind ` name=`, and for a part with a
/// file name a semicolon, a space and that name in double quotes behind
/// `filename=`.
pub open spec fn disposition_value(name: Seq<u8>, file_name: Option<Seq<u8>>) -> Seq<u8> {
    "form-data;".spec_bytes() + name_key() + name + seq![34u8] + (match file_name {
        Some(f) => "; ".spec_bytes() + file_name_key() + f + seq![34u8],
        None => Seq::empty(),
    })
}

/// The header fields of a written part: its `Content-Disposition`, and for
/// a binary part a `Content-Type` that declares an image of the kind
/// `kind`.
pub open spec fn part_fields(p: PartView, kind: Seq<u8>) -> Seq<(Seq<u8>, Seq<u8>)> {
    let disposition = (disposition_header(), disposition_value(p.field_name, p.file_name));
    if p.is_binary {
        seq![disposition, ("Content-Type".spec_bytes(), "image/".spec_bytes() + kind)]
    } else {
        seq![disposition]
    }
}

/// The content of a part: its binary value if it is binary, its text value
/// if not.
pub open spec fn content_of(p: PartView) -> Seq<u8> {
    if p.is_binary {
        match p.binary_value {
            Some(b) => b,
            None => Seq::empty(),
        }
    } else {
        match p.text_value {
            Some(t) => t,
            None => Seq::empty(),
        }
    }
}

/// A part as it is written: its header lines, an empty line, its content,
/// and a line break.
pub open spec fn written_part(p: PartView, kind: Seq<u8>) -> Seq<u8> {
    header_lines(part_fields(p, kind)) + crlf() + content_of(p) + crlf()
}

/// Whether `s` can stand between double quotes in a header: it holds no
/// double quote, no line break, no equals sign and no colon.
pub open spec fn is_label(s: Seq<u8>) -> bool {
    forall|i: int|
        0 <= i < s.len() ==> s[i] != 34u8 && s[i] != 13u8 && s[i] != 10u8 && s[i] != 61u8 && s[i]
            != 58u8
}

/// Whether a part can be written: its field name and its file name can
/// stand between double quotes, and it has a binary value if it is binary
/// and a text value if not, never both.
pub open spec fn writable(p: PartView) -> bool {
    &&& is_label(p.field_name)
    &&& p.file_name matches Some(f) ==> is_label(f)
    &&& p.is_binary ==> p.binary_value is Some && p.text_value is None
    &&& !p.is_binary ==> p.text_value is Some && p.binary_value is None
}

/// Whether `kind` can name the kind of an image: it holds no white space.
pub open spec fn is_kind(kind: Seq<u8>) -> bool {
    forall|i: int| 0 <= i < kind.len() ==> !is_space(kind[i])
}

/// What the proofs need of the text `form-data;`.
proof fn lemma_form_data()
    ensures
        "form-data;".spec_bytes().len() == 10,
        "form-data;".spec_bytes()[0] == 102u8,
        "form-data;".spec_bytes()[7] == 116u8,
        forall|i: int|
            0 <= i < 10 ==> {
                let b = #[trigger] "form-data;".spec_bytes()[i];
                b != 32u8 && b != 61u8 && b != 58u8 && b != 10u8
            },
{
    reveal_strlit("form-data;");
    broadcast use is_ascii_spec_bytes;

    assert(is_ascii("form-data;"));
    assert("form-data;".spec_bytes() =~= seq![
        102u8,
        111u8,
        114u8,
        109u8,
        45u8,
        100u8,
        97u8,
        116u8,
        97u8,
        59u8,
    ]);
}

/// What the proofs need of the key of the field name.
proof fn lemma_name_key()
    ensures
        name_key().len() == 7,
        name_key()[0] == 32u8,
        name_key()[5] == 61u8,
        forall|i: int|
            0 <= i < 7 ==> {
                let b = #[trigger] name_key()[i];
                (i != 5 ==> b != 61u8) && b != 58u8 && b != 10u8
            },
{
    reveal_strlit(" name=\"");
    broadcast use is_ascii_spec_bytes;

    assert(is_ascii(" name=\""));
    assert(name_key() =~= seq![32u8, 110u8, 97u8, 109u8, 101u8, 61u8, 34u8]);
}

/// What the proofs need of the key of the file name.
proof fn lemma_file_name_key()
    ensures
        file_name_key().len() == 10,
        file_name_key()[0] == 102u8,
        file_name_key()[8] == 61u8,
        forall|i: int|
            0 <= i < 10 ==> {
                let b = #[trigger] file_name_key()[i];
                (i != 8 ==> b != 61u8) && b != 58u8 && b != 10u8
            },
{
    reveal_strlit("filename=\"");
    broadcast use is_ascii_spec_bytes;

    assert(is_ascii("filename=\""));
    assert(file_name_key() =~= seq![
        102u8,
        105u8,
        108u8,
        101u8,
        110u8,
        97u8,
        109u8,
        101u8,
        61u8,
        34u8,
    ]);
}

/// What the proofs need of the text between two parameters.
proof fn lemma_separator()
    ensures
        "; ".spec_bytes() == seq![59u8, 32u8],
{
    reveal_strlit("; ");
    broadcast use is_ascii_spec_bytes;

    assert(is_ascii("; "));
    assert("; ".spec_bytes() =~= seq![59u8, 32u8]);
}

/// What the proofs need of the names of the two headers of a part.
proof fn lemma_header_names()
    ensures
        disposition_header().len() == 19,
        disposition_header()[7] == 45u8,
        is_field_name(disposition_header()),
        is_field_name("Content-Type".spec_bytes()),
{
    reveal_strlit("Content-Disposition");
    reveal_strlit("Content-Type");
    broadcast use is_ascii_spec_bytes;

    assert(is_ascii("Content-Disposition"));
    assert(is_ascii("Content-Type"));
    assert(disposition_header() =~= seq![
        67u8,
        111u8,
        110u8,
        116u8,
        101u8,
        110u8,
        116u8,
        45u8,
        68u8,
        105u8,
        115u8,
        112u8,
        111u8,
        115u8,
        105u8,
        116u8,
        105u8,
        111u8,
        110u8,
    ]);
    assert("Content-Type".spec_bytes() =~= seq![
        67u8,
        111u8,
        110u8,
        116u8,
        101u8,
        110u8,
        116u8,
        45u8,
        84u8,
        121u8,
        112u8,
        101u8,
    ]);
}

/// What the proofs need of the text that declares an image.
proof fn lemma_image_marker()
    ensures
        "image/".spec_bytes().len() == 6,
        forall|i: int| 0 <= i < 6 ==> !is_space(#[trigger] "image/".spec_bytes()[i]),
        image_marker().len() == 20,
        image_marker()[0] == 67u8,
        image_marker()[12] == 58u8,
        image_marker() == "Content-Type".spec_bytes() + seq![58u8, 32u8] + "image/".spec_bytes(),
{
    reveal_strlit("Content-Type");
    reveal_strlit("image/");
    reveal_strlit("Content-Type: image/");
    broadcast use is_ascii_spec_bytes;

    assert(is_ascii("Content-Type"));
    assert(is_ascii("image/"));
    assert(is_ascii("Content-Type: image/"));
    assert("image/".spec_bytes() =~= seq![105u8, 109u8, 97u8, 103u8, 101u8, 47u8]);
    assert(image_marker() =~= "Content-Type".spec_bytes() + seq![58u8, 32u8]
        + "image/".spec_bytes());
}

/// How a `Content-Disposition` value is put together: the front up to the
/// closing quote of the field name, and the file name behind it.
spec fn disposition_front(name: Seq<u8>) -> Seq<u8> {
    "form-data;".spec_bytes() + name_key() + name + seq![34u8]
}

/// The bytes of the front of a `Content-Disposition` value, place by
/// place.
proof fn lemma_disposition_front(name: Seq<u8>, i: int)
    requires
        0 <= i < disposition_front(name).len(),
    ensures
        disposition_front(name).len() == 18 + name.len(),
        i < 10 ==> disposition_front(name)[i] == "form-data;".spec_bytes()[i],
        10 <= i < 17 ==> disposition_front(name)[i] == name_key()[i - 10],
        17 <= i < 17 + name.len() ==> disposition_front(name)[i] == name[i - 17],
        i == 17 + name.len() ==> disposition_front(name)[i] == 34u8,
{
    lemma_form_data();
    lemma_name_key();
}

/// The field name is read back out of the value that it was written
/// into.
proof fn lemma_quoted_name(name: Seq<u8>, file_name: Option<Seq<u8>>)
    requires
        is_label(name),
    ensures
        quoted(disposition_value(name, file_name), name_key()) == Some(name),
{
    lemma_form_data();
    lemma_name_key();
    let form = "form-data;".spec_bytes();
    let key = name_key();
    let d = disposition_value(name, file_name);
    let tail = match file_name {
        Some(f) => "; ".spec_bytes() + file_name_key() + f + seq![34u8],
        None => Seq::empty(),
    };
    assert(d =~= form + (key + (name + seq![34u8] + tail)));
    assert(d.subrange(10, 17) =~= key);
    assert forall|j: int| 0 <= j < 10 implies !occurs_at(d, key, j) by {
        if occurs_at(d, key, j) {
            assert(d.subrange(j, j + 7)[0] == key[0]);
            assert(d[j] == form[j]);
        }
    }
    lemma_first_occurrence_is(d, key, 10);
    let rest = d.skip(17);
    assert(rest =~= name + (seq![34u8] + tail));
    lemma_occurs_at_byte(rest, 34u8, name.len() as int);
    assert forall|j: int| 0 <= j < name.len() implies !occurs_at(rest, seq![34u8], j) by {
        lemma_occurs_at_byte(rest, 34u8, j);
    }
    lemma_first_occurrence_is(rest, seq![34u8], name.len() as int);
    assert(rest.take(name.len() as int) =~= name);
}

/// The key of the file name does not reach into the front of a
/// `Content-Disposition` value with its equals sign.
proof fn lemma_no_file_name_key_in_front(name: Seq<u8>, d: Seq<u8>, j: int)
    requires
        is_label(name),
        d.len() >= disposition_front(name).len(),
        d.take(disposition_front(name).len() as int) == disposition_front(name),
        occurs_at(d, file_name_key(), j),
    ensures
        j + 8 >= disposition_front(name).len(),
{
    lemma_form_data();
    lemma_name_key();
    lemma_file_name_key();
    let front = disposition_front(name);
    let key = file_name_key();
    let window = d.subrange(j, j + 10);
    assert(window[8] == key[8]);
    assert(window[0] == key[0]);
    if j + 8 < front.len() {
        lemma_disposition_front(name, j + 8);
        lemma_disposition_front(name, j);
        assert(d[j + 8] == d.take(front.len() as int)[j + 8]);
        assert(d[j] == d.take(front.len() as int)[j]);
        if 10 <= j + 8 < 17 {
            assert(name_key()[j + 8 - 10] == 61u8);
            assert(j == 7);
        }
    }
}

/// The file name is read back out of the value that it was written into,
/// and none is read where none was written.
proof fn lemma_quoted_file_name(name: Seq<u8>, file_name: Option<Seq<u8>>)
    requires
        is_label(name),
        file_name matches Some(f) ==> is_label(f),
    ensures
        quoted(disposition_value(name, file_name), file_name_key()) == file_name,
{
    lemma_file_name_key();
    lemma_separator();
    let key = file_name_key();
    let d = disposition_value(name, file_name);
    let front = disposition_front(name);
    let at = front.len() as int;
    match file_name {
        None => {
            assert(d =~= front);
            assert(d.take(at) =~= front);
            lemma_first_occurrence(d, key);
            if first_occurrence(d, key) is Some {
                let j = first_occurrence(d, key)->0;
                lemma_no_file_name_key_in_front(name, d, j);
            }
        },
        Some(f) => {
            let tail = "; ".spec_bytes() + key + f + seq![34u8];
            assert(d =~= front + tail);
            assert(d.take(at) =~= front);
            let place = at + 2;
            assert(d.subrange(place, place + 10) =~= key);
            assert forall|j: int| 0 <= j < place implies !occurs_at(d, key, j) by {
                if occurs_at(d, key, j) {
                    lemma_no_file_name_key_in_front(name, d, j);
                    let window = d.subrange(j, j + 10);
                    assert(window[8] == key[8]);
                    assert(d[j + 8] == tail[j + 8 - at]);
                    if j + 8 - at >= 2 {
                        assert(tail[j + 8 - at] == key[j + 8 - at - 2]);
                    }
                }
            }
            lemma_first_occurrence_is(d, key, place);
            let rest = d.skip(place + 10);
            assert(rest =~= f + seq![34u8]);
            lemma_occurs_at_byte(rest, 34u8, f.len() as int);
            assert forall|j: int| 0 <= j < f.len() implies !occurs_at(rest, seq![34u8], j) by {
                lemma_occurs_at_byte(rest, 34u8, j);
            }
            lemma_first_occurrence_is(rest, seq![34u8], f.len() as int);
            assert(rest.take(f.len() as int) =~= f);
        },
    }
}

/// A `Content-Disposition` value holds no colon and no line feed, starts
/// with a letter and ends with a double quote.
proof fn lemma_disposition_bytes(name: Seq<u8>, file_name: Option<Seq<u8>>)
    requires
        is_label(name),
        file_name matches Some(f) ==> is_label(f),
    ensures
        disposition_value(name, file_name).len() >= 18,
        disposition_value(name, file_name)[0] == 102u8,
        disposition_value(name, file_name).last() == 34u8,
        forall|i: int|
            0 <= i < disposition_value(name, file_name).len() ==> {
                let b = #[trigger] disposition_value(name, file_name)[i];
                b != 58u8 && b != 10u8
            },
{
    lemma_file_name_key();
    lemma_separator();
    let key = file_name_key();
    let d = disposition_value(name, file_name);
    let front = disposition_front(name);
    let at = front.len() as int;
    let tail = match file_name {
        Some(f) => "; ".spec_bytes() + key + f + seq![34u8],
        None => Seq::empty(),
    };
    assert(d =~= front + tail);
    lemma_disposition_front(name, 0);
    lemma_disposition_front(name, at - 1);
    lemma_form_data();
    assert(d[0] == front[0]);
    assert(d.len() >= 18);
    assert(d.last() == 34u8) by {
        match file_name {
            Some(f) => {
                assert(d.last() == tail.last());
            },
            None => {
                assert(d.last() == front[at - 1]);
            },
        }
    }
    assert forall|i: int| 0 <= i < d.len() implies {
        let b = #[trigger] d[i];
        b != 58u8 && b != 10u8
    } by {
        if i < at {
            lemma_disposition_front(name, i);
            lemma_form_data();
            lemma_name_key();
            assert(d[i] == front[i]);
        } else {
            assert(d[i] == tail[i - at]);
            match file_name {
                Some(f) => {
                    let t = i - at;
                    if 2 <= t < 12 {
                        assert(tail[t] == key[t - 2]);
                    } else if 12 <= t < 12 + f.len() {
                        assert(tail[t] == f[t - 12]);
                    }
                },
                None => {},
            }
        }
    }
}

/// The header fields of a part that can be written can stand in header
/// lines.
proof fn lemma_part_fields(p: PartView, kind: Seq<u8>)
    requires
        writable(p),
        is_kind(kind),
    ensures
        part_fields(p, kind).len() > 0,
        forall|i: int|
            0 <= i < part_fields(p, kind).len() ==> is_field_name(
                (#[trigger] part_fields(p, kind)[i]).0,
            ) && is_plain(part_fields(p, kind)[i].1),
{
    lemma_header_names();
    lemma_image_marker();
    lemma_disposition_bytes(p.field_name, p.file_name);
    let d = disposition_value(p.field_name, p.file_name);
    assert(is_plain(d));
    let image = "image/".spec_bytes() + kind;
    assert(is_plain(image)) by {
        assert(image[0] == "image/".spec_bytes()[0]);
        if kind.len() > 0 {
            assert(image.last() == kind.last());
        } else {
            assert(image.last() == "image/".spec_bytes()[5]);
        }
        assert forall|i: int| 0 <= i < image.len() implies image[i] != 10u8 by {
            if i < 6 {
                assert(image[i] == "image/".spec_bytes()[i]);
            } else {
                assert(image[i] == kind[i - 6]);
            }
        }
    }
}

/// The headers of a written part declare an image exactly if the part is
/// binary.
proof fn lemma_declares_image(p: PartView, kind: Seq<u8>)
    requires
        writable(p),
        is_kind(kind),
    ensures
        header_lines(part_fields(p, kind)).len() >= 2,
        declares_image(
            header_lines(part_fields(p, kind)).take(
                header_lines(part_fields(p, kind)).len() - 2,
            ),
        ) == p.is_binary,
{
    lemma_header_names();
    lemma_image_marker();
    lemma_disposition_bytes(p.field_name, p.file_name);
    let d = disposition_value(p.field_name, p.file_name);
    let first = (disposition_header(), d);
    let first_line = disposition_header() + seq![58u8, 32u8] + d;
    let marker = image_marker();
    let empty = Seq::<(Seq<u8>, Seq<u8>)>::empty();
    assert(header_lines(empty) =~= Seq::<u8>::empty());
    assert(seq![first].drop_last() =~= empty);
    assert(header_lines(seq![first]) =~= first_line + crlf());
    if p.is_binary {
        let second = ("Content-Type".spec_bytes(), "image/".spec_bytes() + kind);
        let fields = seq![first, second];
        assert(fields.drop_last() =~= seq![first]);
        let lines = header_lines(fields);
        assert(lines =~= first_line + crlf() + marker + kind + crlf());
        let headers = lines.take(lines.len() - 2);
        assert(headers =~= first_line + crlf() + marker + kind);
        let at = first_line.len() as int + 2;
        assert(headers.subrange(at, at + 20) =~= marker);
        assert(occurs_at(headers, marker, at));
        lemma_first_occurrence(headers, marker);
    } else {
        let lines = header_lines(seq![first]);
        let headers = lines.take(lines.len() - 2);
        assert(headers =~= first_line);
        lemma_first_occurrence(headers, marker);
        if first_occurrence(headers, marker) is Some {
            let j = first_occurrence(headers, marker)->0;
            let window = headers.subrange(j, j + 20);
            assert(window[12] == marker[12]);
            assert(window[0] == marker[0]);
            assert(headers[j + 12] == 58u8);
            assert(headers[j] == 67u8);
            if j + 12 < 19 {
                assert(headers[j + 12] == disposition_header()[j + 12]);
            } else if j + 12 == 19 {
                assert(headers[j] == disposition_header()[7]);
            } else if j + 12 == 20 {
                assert(headers[j + 12] == 32u8);
            } else {
                assert(headers[j + 12] == d[j + 12 - 21]);
            }
        }
    }
}

/// Where the headers of a written part end, and what its content is.
proof fn lemma_part_layout(p: PartView, kind: Seq<u8>)
    requires
        writable(p),
        is_kind(kind),
    ensures
        header_lines(part_fields(p, kind)).len() >= 2,
        part_header_len(written_part(p, kind)) == Some(
            header_lines(part_fields(p, kind)).len() - 2,
        ),
        written_part(p, kind).take(header_lines(part_fields(p, kind)).len() - 2) == header_lines(
            part_fields(p, kind),
        ).take(header_lines(part_fields(p, kind)).len() - 2),
        part_content(written_part(p, kind), header_lines(part_fields(p, kind)).len() - 2)
            == content_of(p),
{
    let fields = part_fields(p, kind);
    let lines = header_lines(fields);
    let content = content_of(p);
    let raw = lines + crlf() + content + crlf();
    lemma_part_fields(p, kind);
    lemma_blank_line_behind_headers(fields, content + crlf());
    assert(raw =~= lines + crlf() + (content + crlf()));
    assert(blank_line() =~= seq![13u8, 10u8, 13u8, 10u8]);
    let h = lines.len() - 2;
    assert(raw.take(h) =~= lines.take(h));
    assert(raw.subrange(h + 4, raw.len() - 2) =~= content);
}

/// The headers of a written part give its `Content-Disposition` value.
proof fn lemma_part_disposition(p: PartView, kind: Seq<u8>)
    requires
        writable(p),
        is_kind(kind),
    ensures
        header_lines(part_fields(p, kind)).len() >= 2,
        lookup(
            header_fields(
                header_lines(part_fields(p, kind)).take(
                    header_lines(part_fields(p, kind)).len() - 2,
                ),
            ),
            disposition_header(),
        ) == Some(disposition_value(p.field_name, p.file_name)),
{
    let fields = part_fields(p, kind);
    lemma_part_fields(p, kind);
    lemma_header_lines_open(fields);
    assert(fields[0] == (disposition_header(), disposition_value(p.field_name, p.file_name)));
}

/// A written part reads back as the part that was written.
pub proof fn lemma_written_part_reads(p: PartView, kind: Seq<u8>)
    requires
        writable(p),
        is_kind(kind),
    ensures
        part_of(written_part(p, kind)) == Some(p),
{
    lemma_part_layout(p, kind);
    lemma_part_disposition(p, kind);
    lemma_quoted_name(p.field_name, p.file_name);
    lemma_quoted_file_name(p.field_name, p.file_name);
    lemma_declares_image(p, kind);
}

/// The parts `parts` as they are written, one for one.
pub open spec fn written_raws(parts: Seq<PartView>, kind: Seq<u8>) -> Seq<Seq<u8>> {
    Seq::new(parts.len(), |i: int| written_part(parts[i], kind))
}

/// Written parts read back as the parts that were written, in the same
/// order.
proof fn lemma_written_fields(parts: Seq<PartView>, kind: Seq<u8>)
    requires
        is_kind(kind),
        forall|i: int| 0 <= i < parts.len() ==> writable(#[trigger] parts[i]),
    ensures
        fields_of(written_raws(parts, kind)) == parts,
    decreases parts.len(),
{
    let raws = written_raws(parts, kind);
    if parts.len() > 0 {
        let others = parts.skip(1);
        assert(raws.skip(1) =~= written_raws(others, kind));
        assert forall|i: int| 0 <= i < others.len() implies writable(#[trigger] others[i]) by {
            assert(others[i] == parts[i + 1]);
        }
        lemma_written_fields(others, kind);
        lemma_written_part_reads(parts[0], kind);
        assert(seq![parts[0]] + others =~= parts);
    } else {
        assert(fields_of(raws) =~= parts);
    }
}

/// The body of a form with the fields `parts` under the boundary token
/// `token`: the parts as they are written, each behind an occurrence of
/// the delimiter and a line break, and the closing delimiter.
pub open spec fn written_body(token: Seq<u8>, parts: Seq<PartView>, kind: Seq<u8>) -> Seq<u8> {
    written_parts(delimiter_of(token), written_raws(parts, kind))
}

/// Decoding gives back what was written. A body that is written from a
/// list of fields decodes to those fields: the same names, file names and
/// text values in the same order, and for a binary field the same payload
/// byte for byte, whatever bytes the payload holds, as long as the
/// delimiter does not occur in any written part.
pub proof fn lemma_round_trip(token: Seq<u8>, parts: Seq<PartView>, kind: Seq<u8>)
    requires
        forall|i: int| 0 <= i < token.len() ==> token[i] != 10u8,
        is_kind(kind),
        forall|i: int| 0 <= i < parts.len() ==> writable(#[trigger] parts[i]),
        forall|i: int|
            0 <= i < parts.len() ==> first_occurrence(
                written_part(#[trigger] parts[i], kind),
                delimiter_of(token),
            ) is None,
    ensures
        decoded(written_body(token, parts, kind), token) == Ok::<Seq<PartView>, MultipartError>(
            parts,
        ),
{
    let delimiter = delimiter_of(token);
    let raws = written_raws(parts, kind);
    assert(delimits(delimiter)) by {
        assert forall|i: int| 0 <= i < delimiter.len() implies delimiter[i] != 10u8 by {
            if i >= 2 {
                assert(delimiter[i] == token[i - 2]);
            }
        }
    }
    assert forall|i: int| 0 <= i < raws.len() implies fits(#[trigger] raws[i], delimiter) by {
        let raw = written_part(parts[i], kind);
        assert(raw.last() == crlf()[1]);
    }
    lemma_written_parts(delimiter, raws);
    lemma_written_fields(parts, kind);
}

/// The binary values of the binary parts among `parts`, one after the
/// other.
pub open spec fn binary_values(parts: Seq<PartView>) -> Seq<u8>
    decreases parts.len(),
{
    if parts.len() == 0 {
        Seq::empty()
    } else {
        (if parts[0].is_binary {
            content_of(parts[0])
        } else {
            Seq::empty()
        }) + binary_values(parts.skip(1))
    }
}

/// A written part adds its content to the image payload if it is binary,
/// and nothing if it is not.
proof fn lemma_written_image_content(p: PartView, kind: Seq<u8>)
    requires
        writable(p),
        is_kind(kind),
    ensures
        image_content(written_part(p, kind)) == (if p.is_binary {
            content_of(p)
        } else {
            Seq::<u8>::empty()
        }),
{
    lemma_part_layout(p, kind);
    lemma_declares_image(p, kind);
}

/// The image payload of written parts is the binary values that were
/// written.
proof fn lemma_written_images(parts: Seq<PartView>, kind: Seq<u8>)
    requires
        is_kind(kind),
        forall|i: int| 0 <= i < parts.len() ==> writable(#[trigger] parts[i]),
    ensures
        concat_images(written_raws(parts, kind)) == binary_values(parts),
    decreases parts.len(),
{
    let raws = written_raws(parts, kind);
    if parts.len() > 0 {
        let others = parts.skip(1);
        assert(raws.skip(1) =~= written_raws(others, kind));
        assert forall|i: int| 0 <= i < others.len() implies writable(#[trigger] others[i]) by {
            assert(others[i] == parts[i + 1]);
        }
        lemma_written_images(others, kind);
        lemma_written_image_content(parts[0], kind);
        assert(raws[0] == written_part(parts[0], kind));
    }
}

/// Parts that are not binary have no binary values, and the binary values
/// of two lists in a row are those of the first and those of the second.
proof fn lemma_binary_values_join(a: Seq<PartView>, b: Seq<PartView>)
    ensures
        binary_values(a + b) == binary_values(a) + binary_values(b),
        (forall|i: int| 0 <= i < a.len() ==> !(#[trigger] a[i]).is_binary) ==> binary_values(a)
            == Seq::<u8>::empty(),
    decreases a.len(),
{
    if a.len() == 0 {
        assert(a + b =~= b);
        assert(binary_values(a) + binary_values(b) =~= binary_values(b));
    } else {
        lemma_binary_values_join(a.skip(1), b);
        assert((a + b).skip(1) =~= a.skip(1) + b);
        assert((a + b)[0] == a[0]);
        assert(binary_values(a + b) =~= binary_values(a) + binary_values(b));
        if forall|i: int| 0 <= i < a.len() ==> !(#[trigger] a[i]).is_binary {
            assert forall|i: int| 0 <= i < a.skip(1).len() implies !(#[trigger] a.skip(
                1,
            )[i]).is_binary by {
                assert(a.skip(1)[i] == a[i + 1]);
            }
            assert(!a[0].is_binary);
            assert(binary_values(a) =~= Seq::<u8>::empty());
        }
    }
}

/// The image payload of a written body is the binary values that were
/// written into it, byte for byte and in order.
pub proof fn lemma_payload_round_trip(token: Seq<u8>, parts: Seq<PartView>, kind: Seq<u8>)
    requires
        forall|i: int| 0 <= i < token.len() ==> token[i] != 10u8,
        is_kind(kind),
        forall|i: int| 0 <= i < parts.len() ==> writable(#[trigger] parts[i]),
        forall|i: int|
            0 <= i < parts.len() ==> first_occurrence(
                written_part(#[trigger] parts[i], kind),
                delimiter_of(token),
            ) is None,
    ensures
        image_payload(written_body(token, parts, kind), delimiter_of(token)) == Ok::<
            Seq<u8>,
            MultipartError,
        >(binary_values(parts)),
{
    let delimiter = delimiter_of(token);
    let raws = written_raws(parts, kind);
    assert(delimits(delimiter)) by {
        assert forall|i: int| 0 <= i < delimiter.len() implies delimiter[i] != 10u8 by {
            if i >= 2 {
                assert(delimiter[i] == token[i - 2]);
            }
        }
    }
    assert forall|i: int| 0 <= i < raws.len() implies fits(#[trigger] raws[i], delimiter) by {
        let raw = written_part(parts[i], kind);
        assert(raw.last() == crlf()[1]);
    }
    lemma_written_parts(delimiter, raws);
    lemma_written_images(parts, kind);
}

/// The file comes back as it was sent. A body that is written from text
/// fields, one file and more text fields under a boundary token gives the
/// payload of the file as its image payload: the same bytes in the same
/// number, whatever they are, as long as the delimiter occurs in no
/// written part.
pub proof fn lemma_file_round_trip(
    token: Seq<u8>,
    before: Seq<PartView>,
    file: PartView,
    behind: Seq<PartView>,
    kind: Seq<u8>,
)
    requires
        forall|i: int| 0 <= i < token.len() ==> token[i] != 10u8,
        is_kind(kind),
        file.is_binary,
        forall|i: int| 0 <= i < before.len() ==> !(#[trigger] before[i]).is_binary,
        forall|i: int| 0 <= i < behind.len() ==> !(#[trigger] behind[i]).is_binary,
        forall|i: int|
            0 <= i < (before + seq![file] + behind).len() ==> writable(
                #[trigger] (before + seq![file] + behind)[i],
            ),
        forall|i: int|
            0 <= i < (before + seq![file] + behind).len() ==> first_occurrence(
                written_part(#[trigger] (before + seq![file] + behind)[i], kind),
                delimiter_of(token),
            ) is None,
    ensures
        image_payload(
            written_body(token, before + seq![file] + behind, kind),
            delimiter_of(token),
        ) == Ok::<Seq<u8>, MultipartError>(content_of(file)),
        file.binary_value == Some(content_of(file)),
{
    let parts = before + seq![file] + behind;
    lemma_payload_round_trip(token, parts, kind);
    lemma_binary_values_join(before + seq![file], behind);
    lemma_binary_values_join(before, seq![file]);
    lemma_binary_values_join(behind, Seq::<PartView>::empty());
    assert(seq![file].skip(1) =~= Seq::<PartView>::empty());
    assert(binary_values(seq![file].skip(1)) =~= Seq::<u8>::empty());
    assert(binary_values(seq![file]) =~= content_of(file));
    assert(binary_values(parts) =~= content_of(file));
    assert(parts[before.len() as int] == file);
}

} // verus!
