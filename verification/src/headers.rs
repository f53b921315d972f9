//! Lines and header fields: the text that stands in front of a body.

use vstd::prelude::*;
use crate::bytes::{
    copy_range, crlf, find_from, first_occurrence, is_space, lemma_first_occurrence,
    occurs_at,
    lemma_first_occurrence_is, lemma_occurs_at_byte, same_bytes, trim, trim_bytes, trim_end,
    trim_start,
};

verus! {

/// The line feed, which ends a line.
pub open spec fn line_feed() -> Seq<u8> {
    seq![10u8]
}

/// The colon, which parts a header's name from its value.
pub open spec fn colon() -> Seq<u8> {
    seq![58u8]
}

/// `line` without the carriage return at its end, if it has one.
pub open spec fn strip_cr(line: Seq<u8>) -> Seq<u8> {
    if line.len() > 0 && line.last() == 13u8 {
        line.drop_last()
    } else {
        line
    }
}

/// The first line of `s`, without its line break: what stands in front of
/// the first line feed, less one carriage return in front of that; the
/// whole of `s` where it holds no line feed.
pub open spec fn first_line(s: Seq<u8>) -> Seq<u8> {
    match first_occurrence(s, line_feed()) {
        Some(i) => strip_cr(s.take(i)),
        None => s,
    }
}

/// How many bytes of `s` its first line takes, line break included.
pub open spec fn line_step(s: Seq<u8>) -> int {
    match first_occurrence(s, line_feed()) {
        Some(i) => i + 1,
        None => s.len() as int,
    }
}

/// The first line takes at least one byte of a sequence that is not empty,
/// and never more than there are.
pub proof fn lemma_line_step(s: Seq<u8>)
    ensures
        line_step(s) <= s.len(),
        s.len() > 0 ==> line_step(s) >= 1,
{
    lemma_first_occurrence(s, line_feed());
}

/// The name and the value of a header line. The name is what stands in
/// front of the first colon and the value what follows it, each without
/// the white space around it; a line without a colon is a name with an
/// empty value. The bytes of the name are kept as they are.
pub open spec fn field_of(line: Seq<u8>) -> (Seq<u8>, Seq<u8>) {
    match first_occurrence(line, colon()) {
        Some(i) => (trim(line.take(i)), trim(line.skip(i + 1))),
        None => (trim(line), Seq::empty()),
    }
}

/// The header fields at the start of `s`, in the order in which they
/// stand there: one for each line in front of the first empty line.
pub open spec fn header_fields(s: Seq<u8>) -> Seq<(Seq<u8>, Seq<u8>)>
    decreases s.len(),
{
    if s.len() == 0 || first_line(s).len() == 0 {
        Seq::empty()
    } else {
        proof {
            lemma_line_step(s);
        }
        seq![field_of(first_line(s))] + header_fields(s.skip(line_step(s)))
    }
}

/// How many bytes of `s` its header block takes: the header lines and the
/// empty line behind them, or all of `s` where no line is empty.
pub open spec fn header_block_len(s: Seq<u8>) -> int
    decreases s.len(),
{
    if s.len() == 0 {
        0
    } else if first_line(s).len() == 0 {
        line_step(s)
    } else {
        proof {
            lemma_line_step(s);
        }
        line_step(s) + header_block_len(s.skip(line_step(s)))
    }
}

/// The value of the first field of `fields` whose name is `name`, byte for
/// byte.
pub open spec fn lookup(fields: Seq<(Seq<u8>, Seq<u8>)>, name: Seq<u8>) -> Option<Seq<u8>>
    decreases fields.len(),
{
    if fields.len() == 0 {
        None
    } else if fields[0].0 == name {
        Some(fields[0].1)
    } else {
        lookup(fields.skip(1), name)
    }
}

/// The lines that write header fields out: for each field its name, a
/// colon and a space, its value and a line break.
pub open spec fn header_lines(headers: Seq<(Seq<u8>, Seq<u8>)>) -> Seq<u8>
    decreases headers.len(),
{
    if headers.len() == 0 {
        Seq::empty()
    } else {
        header_lines(headers.drop_last()) + headers.last().0 + seq![58u8, 32u8] + headers.last().1
            + crlf()
    }
}

/// Whether `s` can stand in a header line as it is: it holds no line feed
/// and has no white space at its start or its end.
pub open spec fn is_plain(s: Seq<u8>) -> bool {
    &&& forall|i: int| 0 <= i < s.len() ==> s[i] != 10u8
    &&& s.len() > 0 ==> !is_space(s[0]) && !is_space(s.last())
}

/// Whether `s` can be the name of a header field: it is plain, not empty
/// and holds no colon.
pub open spec fn is_field_name(s: Seq<u8>) -> bool {
    &&& is_plain(s)
    &&& s.len() > 0
    &&& forall|i: int| 0 <= i < s.len() ==> s[i] != 58u8
}

/// The line that writes one header field out.
pub open spec fn header_line(field: (Seq<u8>, Seq<u8>)) -> Seq<u8> {
    field.0 + seq![58u8, 32u8] + field.1 + crlf()
}

/// The lines of a list of fields are the line of the first and the lines
/// of the others.
pub proof fn lemma_header_lines_front(first: (Seq<u8>, Seq<u8>), others: Seq<(Seq<u8>, Seq<u8>)>)
    ensures
        header_lines(seq![first] + others) == header_line(first) + header_lines(others),
    decreases others.len(),
{
    let all = seq![first] + others;
    if others.len() == 0 {
        assert(all.drop_last() =~= Seq::<(Seq<u8>, Seq<u8>)>::empty());
        assert(header_lines(all.drop_last()) =~= Seq::<u8>::empty());
        assert(header_lines(all) =~= header_line(first) + header_lines(others));
    } else {
        assert(all.drop_last() =~= seq![first] + others.drop_last());
        lemma_header_lines_front(first, others.drop_last());
        assert(all.last() == others.last());
        assert(header_lines(all) =~= header_line(first) + header_lines(others));
    }
}

/// Trimming leaves a plain sequence as it is, also with one space in front
/// of it.
pub proof fn lemma_trim_plain(s: Seq<u8>)
    requires
        is_plain(s),
    ensures
        trim(s) == s,
        trim(seq![32u8] + s) == s,
{
    let spaced = seq![32u8] + s;
    assert(spaced.skip(1) =~= s);
    assert(trim_start(s) == s);
    assert(trim_end(s) == s);
    assert(trim_start(spaced) == trim_start(spaced.skip(1)));
}

/// Whether `s` can be written as the name of a header field: it is not
/// empty and holds neither a line feed nor a colon.
pub open spec fn is_written_name(s: Seq<u8>) -> bool {
    &&& s.len() > 0
    &&& forall|i: int| 0 <= i < s.len() ==> s[i] != 10u8 && s[i] != 58u8
}

/// Whether `s` can be written as the value of a header field: it holds no
/// line feed.
pub open spec fn is_written_value(s: Seq<u8>) -> bool {
    forall|i: int| 0 <= i < s.len() ==> s[i] != 10u8
}

/// The fields `fields`, each name and each value without the white space
/// around it.
pub open spec fn trimmed_fields(fields: Seq<(Seq<u8>, Seq<u8>)>) -> Seq<(Seq<u8>, Seq<u8>)> {
    Seq::new(fields.len(), |i: int| (trim(fields[i].0), trim(fields[i].1)))
}

/// The line of a field, read as a header line, gives the name and the
/// value of the field, each without the white space around it.
pub proof fn lemma_field_of_written_line(field: (Seq<u8>, Seq<u8>))
    requires
        is_written_name(field.0),
    ensures
        field_of(field.0 + seq![58u8, 32u8] + field.1) == (trim(field.0), trim(field.1)),
{
    let name = field.0;
    let value = field.1;
    let line = name + seq![58u8, 32u8] + value;
    lemma_occurs_at_byte(line, 58u8, name.len() as int);
    assert forall|j: int| 0 <= j < name.len() implies !occurs_at(line, colon(), j) by {
        lemma_occurs_at_byte(line, 58u8, j);
    }
    lemma_first_occurrence_is(line, colon(), name.len() as int);
    assert(line.take(name.len() as int) =~= name);
    let spaced = seq![32u8] + value;
    assert(line.skip(name.len() as int + 1) =~= spaced);
    assert(spaced.skip(1) =~= value);
    assert(trim_start(spaced) == trim_start(value));
}

/// Header lines parse to the fields that they write, in the order in
/// which they are written: no field is dropped, merged or moved, a name
/// that comes twice stays two fields, and no letter of a name changes its
/// case. Each name and each value comes out without the white space
/// around it, and the parsing goes on with what follows the lines.
pub proof fn lemma_written_lines_then(fields: Seq<(Seq<u8>, Seq<u8>)>, tail: Seq<u8>)
    requires
        forall|i: int|
            0 <= i < fields.len() ==> is_written_name((#[trigger] fields[i]).0)
                && is_written_value(fields[i].1),
    ensures
        header_fields(header_lines(fields) + tail) == trimmed_fields(fields) + header_fields(tail),
        header_block_len(header_lines(fields) + tail) == header_lines(fields).len()
            + header_block_len(tail),
    decreases fields.len(),
{
    let text = header_lines(fields) + tail;
    if fields.len() == 0 {
        assert(text =~= tail);
        assert(trimmed_fields(fields) + header_fields(tail) =~= header_fields(tail));
    } else {
        let first = fields[0];
        let others = fields.skip(1);
        assert(fields =~= seq![first] + others);
        lemma_header_lines_front(first, others);
        let line = first.0 + seq![58u8, 32u8] + first.1;
        let end = line.len() as int;
        let after = header_lines(others) + tail;
        assert(text =~= line + crlf() + after);
        lemma_occurs_at_byte(text, 10u8, end + 1);
        assert forall|j: int| 0 <= j < end + 1 implies !occurs_at(text, line_feed(), j) by {
            lemma_occurs_at_byte(text, 10u8, j);
        }
        lemma_first_occurrence_is(text, line_feed(), end + 1);
        assert(text.take(end + 1) =~= line + seq![13u8]);
        assert(strip_cr(text.take(end + 1)) =~= line);
        assert(first_line(text) == line);
        assert(line_step(text) == end + 2);
        assert(text.skip(end + 2) =~= after);
        lemma_field_of_written_line(first);
        assert forall|i: int| 0 <= i < others.len() implies is_written_name(
            (#[trigger] others[i]).0,
        ) && is_written_value(others[i].1) by {
            assert(others[i] == fields[i + 1]);
        }
        lemma_written_lines_then(others, tail);
        assert(header_lines(fields).len() == end + 2 + header_lines(others).len());
        assert(trimmed_fields(others) =~= trimmed_fields(fields).skip(1));
        assert(seq![(trim(first.0), trim(first.1))] + (trimmed_fields(others) + header_fields(
            tail,
        )) =~= trimmed_fields(fields) + header_fields(tail));
    }
}

/// The line of a field, read as a header line, gives the field back.
pub proof fn lemma_field_of_line(field: (Seq<u8>, Seq<u8>))
    requires
        is_field_name(field.0),
        is_plain(field.1),
    ensures
        field_of(field.0 + seq![58u8, 32u8] + field.1) == field,
{
    lemma_field_of_written_line(field);
    lemma_trim_plain(field.0);
    lemma_trim_plain(field.1);
}

/// Header fields that are written out and parsed again come back as they
/// were, in the same order and byte for byte, and the parsing goes on with
/// what follows them.
pub proof fn lemma_header_lines_then(fields: Seq<(Seq<u8>, Seq<u8>)>, tail: Seq<u8>)
    requires
        forall|i: int|
            0 <= i < fields.len() ==> is_field_name((#[trigger] fields[i]).0) && is_plain(
                fields[i].1,
            ),
    ensures
        header_fields(header_lines(fields) + tail) == fields + header_fields(tail),
        header_block_len(header_lines(fields) + tail) == header_lines(fields).len()
            + header_block_len(tail),
{
    lemma_written_lines_then(fields, tail);
    assert forall|i: int| 0 <= i < fields.len() implies #[trigger] trimmed_fields(fields)[i]
        == fields[i] by {
        lemma_trim_plain(fields[i].0);
        lemma_trim_plain(fields[i].1);
    }
    assert(trimmed_fields(fields) =~= fields);
}

/// Behind an empty line no header field follows, and the header block
/// ends behind that line.
pub proof fn lemma_empty_line_ends_headers(body: Seq<u8>)
    ensures
        header_fields(crlf() + body) == Seq::<(Seq<u8>, Seq<u8>)>::empty(),
        header_block_len(crlf() + body) == 2,
{
    let tail = crlf() + body;
    lemma_occurs_at_byte(tail, 10u8, 1);
    assert forall|j: int| 0 <= j < 1 implies !occurs_at(tail, line_feed(), j) by {
        lemma_occurs_at_byte(tail, 10u8, j);
    }
    lemma_first_occurrence_is(tail, line_feed(), 1);
    assert(tail.take(1) =~= seq![13u8]);
    assert(strip_cr(tail.take(1)) =~= Seq::<u8>::empty());
    assert(header_fields(tail) =~= Seq::<(Seq<u8>, Seq<u8>)>::empty());
}

/// Header lines without the line break of the last one parse to the
/// fields that they write.
pub proof fn lemma_header_lines_open(fields: Seq<(Seq<u8>, Seq<u8>)>)
    requires
        fields.len() > 0,
        forall|i: int|
            0 <= i < fields.len() ==> is_field_name((#[trigger] fields[i]).0) && is_plain(
                fields[i].1,
            ),
    ensures
        header_lines(fields).len() >= 2,
        header_fields(header_lines(fields).take(header_lines(fields).len() - 2)) == fields,
{
    let last = fields.last();
    let line = last.0 + seq![58u8, 32u8] + last.1;
    let init = fields.drop_last();
    assert(header_lines(fields) =~= header_lines(init) + line + crlf());
    assert(header_lines(fields).take(header_lines(fields).len() - 2) =~= header_lines(init)
        + line);
    assert forall|j: int| !occurs_at(line, line_feed(), j) by {
        lemma_occurs_at_byte(line, 10u8, j);
    }
    lemma_first_occurrence(line, line_feed());
    assert(first_line(line) == line);
    let behind = line.skip(line.len() as int);
    assert(behind.len() == 0);
    assert(header_fields(behind) =~= Seq::<(Seq<u8>, Seq<u8>)>::empty());
    lemma_field_of_line(last);
    assert(line_step(line) == line.len());
    assert(header_fields(line) =~= seq![field_of(line)] + header_fields(behind));
    assert(header_fields(line) =~= seq![last]);
    lemma_header_lines_then(init, line);
    assert(init + seq![last] =~= fields);
}

/// In header lines, a line feed stands only at the end of a line: behind
/// it the lines end, or a name begins.
pub proof fn lemma_line_feeds(fields: Seq<(Seq<u8>, Seq<u8>)>, k: int)
    requires
        forall|i: int|
            0 <= i < fields.len() ==> is_field_name((#[trigger] fields[i]).0) && is_plain(
                fields[i].1,
            ),
        0 <= k < header_lines(fields).len(),
        header_lines(fields)[k] == 10u8,
    ensures
        k + 1 == header_lines(fields).len() || !is_space(header_lines(fields)[k + 1]),
    decreases fields.len(),
{
    if fields.len() > 0 {
        let last = fields.last();
        let init = fields.drop_last();
        let front = header_lines(init);
        let line = last.0 + seq![58u8, 32u8] + last.1;
        let all = header_lines(fields);
        assert(all =~= front + line + crlf());
        if k < front.len() {
            assert(all[k] == front[k]);
            lemma_line_feeds(init, k);
            if k + 1 == front.len() {
                assert(all[k + 1] == last.0[0]);
            } else {
                assert(all[k + 1] == front[k + 1]);
            }
        } else if k < front.len() + line.len() {
            assert(all[k] == line[k - front.len()]);
        }
    }
}

/// Behind header lines and an empty line, the first blank line of the
/// whole is the one that ends the last header line.
pub proof fn lemma_blank_line_behind_headers(fields: Seq<(Seq<u8>, Seq<u8>)>, rest: Seq<u8>)
    requires
        fields.len() > 0,
        forall|i: int|
            0 <= i < fields.len() ==> is_field_name((#[trigger] fields[i]).0) && is_plain(
                fields[i].1,
            ),
    ensures
        header_lines(fields).len() >= 2,
        first_occurrence(header_lines(fields) + crlf() + rest, seq![13u8, 10u8, 13u8, 10u8])
            == Some(header_lines(fields).len() - 2),
{
    let lines = header_lines(fields);
    let text = lines + crlf() + rest;
    let blank = seq![13u8, 10u8, 13u8, 10u8];
    let last = fields.last();
    assert(lines =~= header_lines(fields.drop_last()) + last.0 + seq![58u8, 32u8] + last.1
        + crlf());
    let h = lines.len() - 2;
    assert(text.subrange(h, h + 4) =~= blank);
    assert forall|j: int| 0 <= j < h implies !occurs_at(text, blank, j) by {
        if occurs_at(text, blank, j) {
            let window = text.subrange(j, j + 4);
            assert(window[1] == text[j + 1]);
            assert(window[2] == text[j + 2]);
            assert(lines[j + 1] == 10u8);
            lemma_line_feeds(fields, j + 1);
            assert(lines[j + 2] == text[j + 2]);
        }
    }
    lemma_first_occurrence_is(text, blank, h);
}

/// What a list of fields holds: the bytes of each name and each value.
pub open spec fn fields_view(fields: Seq<(Vec<u8>, Vec<u8>)>) -> Seq<(Seq<u8>, Seq<u8>)> {
    Seq::new(fields.len(), |i: int| (fields[i].0@, fields[i].1@))
}

/// The line that starts at offset `from` of `s`, and the offset at which
/// the next one starts.
pub(crate) fn read_line(s: &[u8], from: usize) -> (r: (&[u8], usize))
    requires
        from <= s@.len(),
    ensures
        r.0@ == first_line(s@.skip(from as int)),
        r.1 == from + line_step(s@.skip(from as int)),
        r.1 <= s@.len(),
        from < s@.len() ==> from < r.1,
{
    let feed: [u8; 1] = [10];
    assert(feed@ =~= line_feed());
    let n: usize = s.len();
    proof {
        lemma_first_occurrence(s@.skip(from as int), line_feed());
    }
    match find_from(s, feed.as_slice(), from) {
        None => {
            let line: &[u8] = &s[from..n];
            assert(line@ =~= s@.skip(from as int));
            (line, n)
        },
        Some(i) => {
            assert(s@.subrange(from as int, i as int) =~= s@.skip(from as int).take(i - from));
            if i > from && s[i - 1] == 13 {
                let line: &[u8] = &s[from..i - 1];
                assert(line@ =~= s@.subrange(from as int, i as int).drop_last());
                (line, i + 1)
            } else {
                let line: &[u8] = &s[from..i];
                (line, i + 1)
            }
        },
    }
}

/// The name and the value that `line` holds.
pub fn split_field(line: &[u8]) -> (field: (Vec<u8>, Vec<u8>))
    ensures
        (field.0@, field.1@) == field_of(line@),
{
    let sep: [u8; 1] = [58];
    assert(sep@ =~= colon());
    let n: usize = line.len();
    assert(line@.skip(0) =~= line@);
    match find_from(line, sep.as_slice(), 0) {
        None => {
            let name: &[u8] = trim_bytes(line);
            (copy_range(name, 0, name.len()), Vec::new())
        },
        Some(i) => {
            let name: &[u8] = trim_bytes(&line[0..i]);
            let value: &[u8] = trim_bytes(&line[i + 1..n]);
            assert(line@.subrange(0, i as int) =~= line@.take(i as int));
            assert(line@.subrange(i + 1, n as int) =~= line@.skip(i + 1));
            let name_copy: Vec<u8> = copy_range(name, 0, name.len());
            let value_copy: Vec<u8> = copy_range(value, 0, value.len());
            assert(name_copy@ =~= name@);
            assert(value_copy@ =~= value@);
            (name_copy, value_copy)
        },
    }
}

/// The header fields that start at offset `from` of `s`, and the offset
/// behind the header block.
pub(crate) fn parse_header_block(s: &[u8], from: usize) -> (r: (Vec<(Vec<u8>, Vec<u8>)>, usize))
    requires
        from <= s@.len(),
    ensures
        fields_view(r.0@) == header_fields(s@.skip(from as int)),
        r.1 == from + header_block_len(s@.skip(from as int)),
        from <= r.1 <= s@.len(),
{
    let n: usize = s.len();
    let mut fields: Vec<(Vec<u8>, Vec<u8>)> = Vec::new();
    let mut pos: usize = from;
    assert(fields_view(fields@) =~= Seq::<(Seq<u8>, Seq<u8>)>::empty());
    while pos < n
        invariant
            n == s@.len(),
            from <= pos <= n,
            header_fields(s@.skip(from as int)) == fields_view(fields@) + header_fields(
                s@.skip(pos as int),
            ),
            header_block_len(s@.skip(from as int)) == pos - from + header_block_len(
                s@.skip(pos as int),
            ),
        decreases n - pos,
    {
        let (line, next) = read_line(s, pos);
        let ghost tail = s@.skip(pos as int);
        assert(tail.skip(line_step(tail)) =~= s@.skip(next as int));
        if line.len() == 0 {
            assert(fields_view(fields@) + Seq::<(Seq<u8>, Seq<u8>)>::empty() =~= fields_view(fields@));
            return (fields, next);
        }
        let field: (Vec<u8>, Vec<u8>) = split_field(line);
        let ghost before = fields_view(fields@);
        let ghost added = (field.0@, field.1@);
        fields.push(field);
        assert(fields_view(fields@) =~= before.push(added));
        assert(before + (seq![added] + header_fields(s@.skip(next as int))) =~= before.push(added)
            + header_fields(s@.skip(next as int)));
        pos = next;
    }
    assert(fields_view(fields@) + Seq::<(Seq<u8>, Seq<u8>)>::empty() =~= fields_view(fields@));
    (fields, pos)
}

/// The header fields at the start of `block`.
pub fn parse_headers(block: &[u8]) -> (fields: Vec<(Vec<u8>, Vec<u8>)>)
    ensures
        fields_view(fields@) == header_fields(block@),
{
    assert(block@.skip(0) =~= block@);
    let (fields, _end) = parse_header_block(block, 0);
    fields
}

/// The value of the first of `headers` whose name is `name`.
pub fn find_header<'a>(headers: &'a Vec<(Vec<u8>, Vec<u8>)>, name: &[u8]) -> (value: Option<
    &'a Vec<u8>,
>)
    ensures
        match value {
            Some(v) => lookup(fields_view(headers@), name@) == Some(v@),
            None => lookup(fields_view(headers@), name@) is None,
        },
{
    let n: usize = headers.len();
    let mut i: usize = 0;
    assert(fields_view(headers@).skip(0) =~= fields_view(headers@));
    while i < n
        invariant
            n == headers@.len(),
            i <= n,
            lookup(fields_view(headers@), name@) == lookup(fields_view(headers@).skip(i as int), name@),
        decreases n - i,
    {
        let ghost rest = fields_view(headers@).skip(i as int);
        assert(rest[0] == (headers@[i as int].0@, headers@[i as int].1@));
        assert(rest.skip(1) =~= fields_view(headers@).skip(i + 1));
        if same_bytes(headers[i].0.as_slice(), name) {
            return Some(&headers[i].1);
        }
        i += 1;
    }
    None
}

} // verus!
