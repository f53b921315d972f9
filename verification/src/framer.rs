//! The byte framer: it finds the end of one request in a stream of bytes
//! that arrives in pieces.
//!
//! A request is a head, which is a run of lines that ends with the first
//! line that holds nothing but a carriage return and a line feed, and a
//! body of as many bytes as the head declares under `Content-Length`.

use vstd::prelude::*;
use vstd::string::*;
use crate::bytes::{
    append, copy_range, crlf, eq_ignore_case, find_from, first_occurrence, lemma_first_occurrence,
    lemma_first_occurrence_extend, lemma_first_occurrence_is, lemma_occurs_at_byte, occurs_at,
    same_ignoring_case, split_words, views, words,
};
use crate::bytes::{is_space, lemma_one_word, trim};
use crate::headers::{
    field_of, first_line, header_block_len, header_lines, is_written_name, is_written_value,
    lemma_field_of_written_line, lemma_header_lines_front, line_feed, split_field, strip_cr,
};
use crate::number::{
    decimal, digits_of, is_digit, lemma_decimal_of_digits, lemma_digits_of, parse_decimal,
};

verus! {

/// The name of the header that declares the length of the body.
pub open spec fn length_header() -> Seq<u8> {
    "Content-Length".spec_bytes()
}

/// The number that the value of a `Content-Length` header stands for: its
/// first word read as a decimal number, and 0 where there is no word or
/// the word is no number.
pub open spec fn number_in(value: Seq<u8>) -> nat {
    let w = words(value);
    if w.len() == 0 {
        0
    } else {
        match decimal(w[0]) {
            Some(v) => v,
            None => 0,
        }
    }
}

/// The body length in force behind `line`, a line without its line break,
/// where `declared` was in force in front of it: the number on the line if
/// its name is `Content-Length` in any mix of upper and lower case, and
/// `declared` if not.
pub open spec fn declared_after(line: Seq<u8>, declared: nat) -> nat {
    let field = field_of(line);
    if eq_ignore_case(field.0, length_header()) {
        number_in(field.1)
    } else {
        declared
    }
}

/// Reads `s` line by line up to the first line that is exactly a carriage
/// return and a line feed. Gives the number of bytes up to and with that
/// line, and the body length in force there, the last `Content-Length`
/// line deciding; `declared` is the length in force at the start. `None`
/// while `s` holds no such line.
pub open spec fn scan_head(s: Seq<u8>, declared: nat) -> Option<(int, nat)>
    decreases s.len(),
{
    match first_occurrence(s, line_feed()) {
        None => None,
        Some(i) => {
            proof {
                lemma_first_occurrence(s, line_feed());
            }
            let line = s.take(i + 1);
            if line == crlf() {
                Some((i + 1, declared))
            } else {
                match scan_head(s.skip(i + 1), declared_after(first_line(s), declared)) {
                    Some((h, l)) => Some((i + 1 + h, l)),
                    None => None,
                }
            }
        },
    }
}

/// The head of the request that `stream` starts with: its length in bytes
/// and the length of the body that it declares, 0 where it declares none.
pub open spec fn head_of(stream: Seq<u8>) -> Option<(int, nat)> {
    scan_head(stream, 0)
}

/// The length of the request that `stream` starts with, once all of it has
/// arrived.
pub open spec fn message_len(stream: Seq<u8>) -> Option<int> {
    match head_of(stream) {
        Some((h, l)) => if h + l <= stream.len() {
            Some(h + l)
        } else {
            None
        },
        None => None,
    }
}

/// A head lies within the bytes that it was read from.
pub proof fn lemma_scan_head_bounds(s: Seq<u8>, declared: nat)
    ensures
        scan_head(s, declared) matches Some((h, l)) ==> 2 <= h <= s.len(),
    decreases s.len(),
{
    lemma_first_occurrence(s, line_feed());
    match first_occurrence(s, line_feed()) {
        None => {},
        Some(i) => {
            let line = s.take(i + 1);
            if line == crlf() {
                assert(line.len() == 2);
            } else {
                lemma_scan_head_bounds(s.skip(i + 1), declared_after(first_line(s), declared));
            }
        },
    }
}

/// Bytes that arrive behind a head change neither its length nor the body
/// length that it declares.
pub proof fn lemma_scan_head_extend(s: Seq<u8>, more: Seq<u8>, declared: nat)
    requires
        scan_head(s, declared) is Some,
    ensures
        scan_head(s + more, declared) == scan_head(s, declared),
    decreases s.len(),
{
    lemma_first_occurrence(s, line_feed());
    let i = first_occurrence(s, line_feed())->0;
    lemma_first_occurrence_extend(s, more, line_feed(), i);
    let line = s.take(i + 1);
    assert((s + more).take(i + 1) =~= line);
    assert((s + more).take(i) =~= s.take(i));
    if line != crlf() {
        assert((s + more).skip(i + 1) =~= s.skip(i + 1) + more);
        lemma_scan_head_extend(s.skip(i + 1), more, declared_after(first_line(s), declared));
    }
}

/// A head is found as well in any part of the stream that holds all of
/// it.
pub proof fn lemma_scan_head_cut(s: Seq<u8>, k: int, declared: nat)
    requires
        scan_head(s, declared) matches Some((h, l)) && h <= k <= s.len(),
    ensures
        scan_head(s.take(k), declared) == scan_head(s, declared),
    decreases s.len(),
{
    lemma_first_occurrence(s, line_feed());
    lemma_scan_head_bounds(s, declared);
    let i = first_occurrence(s, line_feed())->0;
    let cut = s.take(k);
    let line = s.take(i + 1);
    if line != crlf() {
        lemma_scan_head_bounds(s.skip(i + 1), declared_after(first_line(s), declared));
    }
    assert(i + 1 <= k);
    assert(cut.subrange(i, i + 1) =~= s.subrange(i, i + 1));
    assert forall|j: int| 0 <= j < i implies !occurs_at(cut, line_feed(), j) by {
        if occurs_at(cut, line_feed(), j) {
            assert(cut.subrange(j, j + 1) =~= s.subrange(j, j + 1));
            assert(occurs_at(s, line_feed(), j));
        }
    }
    lemma_first_occurrence_is(cut, line_feed(), i);
    assert(cut.take(i + 1) =~= line);
    assert(cut.take(i) =~= s.take(i));
    if line != crlf() {
        assert(cut.skip(i + 1) =~= s.skip(i + 1).take(k - i - 1));
        lemma_scan_head_cut(s.skip(i + 1), k - i - 1, declared_after(first_line(s), declared));
    }
}

/// In a head without an empty line that ends in a bare line feed, the
/// header block that the parser reads ends where the head ends.
pub proof fn lemma_head_is_header_block(t: Seq<u8>, declared: nat)
    requires
        scan_head(t, declared) is Some,
        t.len() > 0 ==> t[0] != 10u8,
        forall|j: int|
            0 <= j && j + 1 < (scan_head(t, declared)->0).0 ==> !(t[j] == 10u8 && #[trigger] t[j
                + 1] == 10u8),
    ensures
        header_block_len(t) == (scan_head(t, declared)->0).0,
    decreases t.len(),
{
    lemma_first_occurrence(t, line_feed());
    lemma_scan_head_bounds(t, declared);
    let i = first_occurrence(t, line_feed())->0;
    lemma_occurs_at_byte(t, 10u8, i);
    let line = t.take(i + 1);
    assert(t.take(i).len() == i);
    if line == crlf() {
        assert(line.len() == 2);
        assert(t.take(1) =~= seq![line[0]]);
        assert(strip_cr(t.take(1)) =~= Seq::<u8>::empty());
    } else {
        let behind = t.skip(i + 1);
        let next = declared_after(first_line(t), declared);
        lemma_scan_head_bounds(behind, next);
        assert(first_line(t).len() > 0) by {
            let front = t.take(i);
            if front.last() == 13u8 && i == 1 {
                assert(line =~= crlf());
            }
        }
        assert(behind[0] == t[i + 1]);
        assert forall|j: int| 0 <= j && j + 1 < (scan_head(behind, next)->0).0 implies !(behind[j]
            == 10u8 && #[trigger] behind[j + 1] == 10u8) by {
            assert(behind[j] == t[i + 1 + j]);
            assert(behind[j + 1] == t[i + 1 + j + 1]);
        }
        lemma_head_is_header_block(behind, next);
    }
}

/// Whether a header field declares the length of the body: its name is
/// `Content-Length`, in any mix of upper and lower case and with any white
/// space around it.
pub open spec fn names_length(name: Seq<u8>) -> bool {
    eq_ignore_case(trim(name), length_header())
}

/// The body length in force behind the header fields `fields`, where
/// `declared` was in force in front of them: the number in the value of
/// the last field that declares the length, and `declared` where none
/// does.
pub open spec fn declared_through(fields: Seq<(Seq<u8>, Seq<u8>)>, declared: nat) -> nat
    decreases fields.len(),
{
    if fields.len() == 0 {
        declared
    } else {
        declared_through(
            fields.skip(1),
            if names_length(fields[0].0) {
                number_in(trim(fields[0].1))
            } else {
                declared
            },
        )
    }
}

/// A line that is not empty is read as one line of the head, and the scan
/// goes on behind its line break.
proof fn lemma_scan_line(text: Seq<u8>, tail: Seq<u8>, declared: nat)
    requires
        text.len() > 0,
        forall|i: int| 0 <= i < text.len() ==> text[i] != 10u8,
    ensures
        scan_head(text + crlf() + tail, declared) == (match scan_head(
            tail,
            declared_after(text, declared),
        ) {
            Some((h, l)) => Some((text.len() + 2 + h, l)),
            None => None,
        }),
{
    let s = text + crlf() + tail;
    let end = text.len() as int;
    lemma_occurs_at_byte(s, 10u8, end + 1);
    assert forall|j: int| 0 <= j < end + 1 implies !occurs_at(s, line_feed(), j) by {
        lemma_occurs_at_byte(s, 10u8, j);
    }
    lemma_first_occurrence_is(s, line_feed(), end + 1);
    assert(s.take(end + 2) =~= text + crlf());
    assert(s.take(end + 2).len() != 2);
    assert(s.take(end + 1) =~= text + seq![13u8]);
    assert(strip_cr(s.take(end + 1)) =~= text);
    assert(s.skip(end + 2) =~= tail);
}

/// Header lines and the empty line behind them are read as the rest of a
/// head.
proof fn lemma_scan_fields(fields: Seq<(Seq<u8>, Seq<u8>)>, rest: Seq<u8>, declared: nat)
    requires
        forall|i: int|
            0 <= i < fields.len() ==> is_written_name((#[trigger] fields[i]).0)
                && is_written_value(fields[i].1),
    ensures
        scan_head(header_lines(fields) + crlf() + rest, declared) == Some(
            (header_lines(fields).len() as int + 2, declared_through(fields, declared)),
        ),
    decreases fields.len(),
{
    let s = header_lines(fields) + crlf() + rest;
    if fields.len() == 0 {
        assert(s =~= crlf() + rest);
        lemma_occurs_at_byte(s, 10u8, 1);
        assert forall|j: int| 0 <= j < 1 implies !occurs_at(s, line_feed(), j) by {
            lemma_occurs_at_byte(s, 10u8, j);
        }
        lemma_first_occurrence_is(s, line_feed(), 1);
        assert(s.take(2) =~= crlf());
    } else {
        let first = fields[0];
        let others = fields.skip(1);
        assert(fields =~= seq![first] + others);
        lemma_header_lines_front(first, others);
        let text = first.0 + seq![58u8, 32u8] + first.1;
        let tail = header_lines(others) + crlf() + rest;
        assert(s =~= text + crlf() + tail);
        lemma_scan_line(text, tail, declared);
        lemma_field_of_written_line(first);
        assert forall|i: int| 0 <= i < others.len() implies is_written_name(
            (#[trigger] others[i]).0,
        ) && is_written_value(others[i].1) by {
            assert(others[i] == fields[i + 1]);
        }
        lemma_scan_fields(others, rest, declared_after(text, declared));
        assert(header_lines(fields).len() == text.len() + 2 + header_lines(others).len());
    }
}

/// The head of a written request ends behind its empty line, and declares
/// what its header fields declare. For a first line, header lines
/// `name: value` and an empty line, all ending in a carriage return and a
/// line feed, the head is all of these, whatever follows them.
pub proof fn lemma_written_head(start: Seq<u8>, fields: Seq<(Seq<u8>, Seq<u8>)>, rest: Seq<u8>)
    requires
        start.len() > 0,
        forall|i: int| 0 <= i < start.len() ==> start[i] != 10u8,
        forall|i: int|
            0 <= i < fields.len() ==> is_written_name((#[trigger] fields[i]).0)
                && is_written_value(fields[i].1),
    ensures
        head_of(start + crlf() + header_lines(fields) + crlf() + rest) == Some(
            (
                start.len() as int + 2 + header_lines(fields).len() + 2,
                declared_through(fields, declared_after(start, 0)),
            ),
        ),
{
    let tail = header_lines(fields) + crlf() + rest;
    lemma_scan_line(start, tail, 0);
    lemma_scan_fields(fields, rest, declared_after(start, 0));
    assert(start + crlf() + tail =~= start + crlf() + header_lines(fields) + crlf() + rest);
}

/// What one list of fields and then another declare is what the second
/// declares behind the first; fields that do not declare the length leave
/// it as it was.
proof fn lemma_declared_through(
    a: Seq<(Seq<u8>, Seq<u8>)>,
    b: Seq<(Seq<u8>, Seq<u8>)>,
    declared: nat,
)
    ensures
        declared_through(a + b, declared) == declared_through(b, declared_through(a, declared)),
        (forall|i: int| 0 <= i < a.len() ==> !names_length((#[trigger] a[i]).0))
            ==> declared_through(a, declared) == declared,
    decreases a.len(),
{
    if a.len() == 0 {
        assert(a + b =~= b);
    } else {
        let next = if names_length(a[0].0) {
            number_in(trim(a[0].1))
        } else {
            declared
        };
        lemma_declared_through(a.skip(1), b, next);
        assert((a + b).skip(1) =~= a.skip(1) + b);
        assert((a + b)[0] == a[0]);
        if forall|i: int| 0 <= i < a.len() ==> !names_length((#[trigger] a[i]).0) {
            assert forall|i: int| 0 <= i < a.skip(1).len() implies !names_length(
                (#[trigger] a.skip(1)[i]).0,
            ) by {
                assert(a.skip(1)[i] == a[i + 1]);
            }
            assert(!names_length(a[0].0));
        }
    }
}

/// The digits of a number, as the value of `Content-Length`, stand for
/// that number.
proof fn lemma_number_in_digits(length: nat)
    requires
        length <= usize::MAX,
    ensures
        number_in(trim(digits_of(length))) == length,
{
    let d = digits_of(length);
    lemma_digits_of(length);
    lemma_decimal_of_digits(length);
    assert forall|i: int| 0 <= i < d.len() implies !is_space(d[i]) by {
        assert(is_digit(d[i]));
    }
    lemma_one_word(d);
}

/// A request with `Content-Length: L` has a body of exactly `L` bytes.
/// For a stream that starts with a first line, header lines among which
/// the last that declares the length says `L`, an empty line and `L` bytes
/// of body, the request is the head and those `L` bytes: the body has
/// length `L` and is the bytes that were sent, whatever they are, and
/// nothing of what follows it belongs to the request.
pub proof fn lemma_content_length_frames(
    start: Seq<u8>,
    before: Seq<(Seq<u8>, Seq<u8>)>,
    name: Seq<u8>,
    length: nat,
    behind: Seq<(Seq<u8>, Seq<u8>)>,
    body: Seq<u8>,
    rest: Seq<u8>,
)
    requires
        start.len() > 0,
        forall|i: int| 0 <= i < start.len() ==> start[i] != 10u8,
        forall|i: int|
            0 <= i < before.len() ==> is_written_name((#[trigger] before[i]).0)
                && is_written_value(before[i].1),
        forall|i: int|
            0 <= i < behind.len() ==> is_written_name((#[trigger] behind[i]).0)
                && is_written_value(behind[i].1) && !names_length(behind[i].0),
        is_written_name(name),
        names_length(name),
        length <= usize::MAX,
        body.len() == length,
    ensures
        ({
            let fields = before + seq![(name, digits_of(length))] + behind;
            let head = start + crlf() + header_lines(fields) + crlf();
            let stream = head + body + rest;
            &&& head_of(stream) == Some((head.len() as int, length))
            &&& message_len(stream) == Some(head.len() as int + length)
            &&& stream.take(head.len() as int + length) == head + body
            &&& stream.subrange(head.len() as int, head.len() as int + length) == body
        }),
{
    let field = (name, digits_of(length));
    let fields = before + seq![field] + behind;
    let head = start + crlf() + header_lines(fields) + crlf();
    let stream = head + body + rest;
    lemma_digits_of(length);
    assert forall|i: int| 0 <= i < fields.len() implies is_written_name(
        (#[trigger] fields[i]).0,
    ) && is_written_value(fields[i].1) by {
        if i < before.len() {
            assert(fields[i] == before[i]);
        } else if i == before.len() {
            assert(fields[i] == field);
            assert forall|k: int| 0 <= k < field.1.len() implies field.1[k] != 10u8 by {
                assert(is_digit(field.1[k]));
            }
        } else {
            assert(fields[i] == behind[i - before.len() - 1]);
        }
    }
    lemma_written_head(start, fields, body + rest);
    assert(stream =~= start + crlf() + header_lines(fields) + crlf() + (body + rest));
    let d0 = declared_after(start, 0);
    lemma_declared_through(before + seq![field], behind, d0);
    lemma_declared_through(before, seq![field], d0);
    lemma_declared_through(behind, Seq::<(Seq<u8>, Seq<u8>)>::empty(), length);
    lemma_number_in_digits(length);
    let d1 = declared_through(before, d0);
    let one = seq![field];
    assert(one[0] == field);
    assert(one.skip(1).len() == 0);
    assert(declared_through(one.skip(1), length) == length);
    assert(declared_through(one, d1) == declared_through(one.skip(1), number_in(trim(field.1))));
    assert(declared_through(one, d1) == length);
    assert(declared_through(behind, length) == length);
    assert(declared_through(fields, d0) == length);
    assert(stream.take(head.len() as int + length) =~= head + body);
    assert(stream.subrange(head.len() as int, head.len() as int + length) =~= body);
}

/// A request without `Content-Length` has no body: where no header field
/// and not the first line declares the length, the request ends with the
/// empty line of its head.
pub proof fn lemma_no_content_length_frames(
    start: Seq<u8>,
    fields: Seq<(Seq<u8>, Seq<u8>)>,
    rest: Seq<u8>,
)
    requires
        start.len() > 0,
        forall|i: int| 0 <= i < start.len() ==> start[i] != 10u8,
        declared_after(start, 0) == 0,
        forall|i: int|
            0 <= i < fields.len() ==> is_written_name((#[trigger] fields[i]).0)
                && is_written_value(fields[i].1) && !names_length(fields[i].0),
    ensures
        ({
            let head = start + crlf() + header_lines(fields) + crlf();
            &&& head_of(head + rest) == Some((head.len() as int, 0nat))
            &&& message_len(head + rest) == Some(head.len() as int)
        }),
{
    lemma_written_head(start, fields, rest);
    lemma_declared_through(fields, Seq::<(Seq<u8>, Seq<u8>)>::empty(), 0);
    let head = start + crlf() + header_lines(fields) + crlf();
    assert(head + rest =~= start + crlf() + header_lines(fields) + crlf() + rest);
}

/// The stream that pieces make when they arrive one behind the other.
pub open spec fn glued(pieces: Seq<Seq<u8>>) -> Seq<u8>
    decreases pieces.len(),
{
    if pieces.len() == 0 {
        Seq::empty()
    } else {
        glued(pieces.drop_last()) + pieces.last()
    }
}

/// A request is the same however its stream was cut: two lists of pieces
/// that make the same stream give the same answer, and if they give a
/// request, the same request with the same body.
pub proof fn lemma_pieces_do_not_matter(
    one: Seq<Seq<u8>>,
    other: Seq<Seq<u8>>,
    first: RawMessage,
    second: RawMessage,
)
    requires
        glued(one) == glued(other),
        is_frame_of(first, glued(one)),
        is_frame_of(second, glued(other)),
    ensures
        status_of(glued(one)) == status_of(glued(other)),
        first.bytes@ == second.bytes@,
        first.head_len == second.head_len,
        first.body() == second.body(),
{
}

/// A stream that is cut into pieces holds the request that the whole
/// holds: once `stream` holds a complete request, that request has the
/// same head and the same length whatever arrives behind it.
pub proof fn lemma_message_stable(stream: Seq<u8>, more: Seq<u8>)
    requires
        message_len(stream) is Some,
    ensures
        head_of(stream + more) == head_of(stream),
        message_len(stream + more) == message_len(stream),
        (stream + more).take(message_len(stream)->0) == stream.take(message_len(stream)->0),
{
    lemma_scan_head_extend(stream, more, 0);
    lemma_scan_head_bounds(stream, 0);
    assert((stream + more).take(message_len(stream)->0) =~= stream.take(message_len(stream)->0));
}

/// The body of a framed request is exactly as long as its head declares.
pub proof fn lemma_body_length(stream: Seq<u8>)
    requires
        message_len(stream) is Some,
    ensures
        head_of(stream) matches Some((h, l)) && stream.subrange(h, message_len(stream)->0).len()
            == l,
{
    lemma_scan_head_bounds(stream, 0);
}

/// The number that the value of a `Content-Length` header stands for.
pub fn read_number(value: &[u8]) -> (n: usize)
    ensures
        n == number_in(value@),
{
    let w: Vec<Vec<u8>> = split_words(value);
    if w.len() == 0 {
        return 0;
    }
    assert(views(w@)[0] == w@[0]@);
    match parse_decimal(w[0].as_slice()) {
        Some(v) => v,
        None => 0,
    }
}

/// The body length in force behind `line`, a line without its line break.
pub fn read_declared(line: &[u8], declared: usize) -> (n: usize)
    ensures
        n == declared_after(line@, declared as nat),
{
    let field: (Vec<u8>, Vec<u8>) = split_field(line);
    if same_ignoring_case(field.0.as_slice(), "Content-Length".as_bytes()) {
        read_number(field.1.as_slice())
    } else {
        declared
    }
}

/// Looks for the head of a request at the start of `stream`.
pub fn find_head(stream: &[u8]) -> (head: Option<(usize, usize)>)
    ensures
        match head {
            Some((h, l)) => head_of(stream@) == Some((h as int, l as nat)),
            None => head_of(stream@) is None,
        },
{
    let feed: [u8; 1] = [10];
    assert(feed@ =~= line_feed());
    let n: usize = stream.len();
    let mut pos: usize = 0;
    let mut declared: usize = 0;
    assert(stream@.skip(0) =~= stream@);
    loop
        invariant
            n == stream@.len(),
            pos <= n,
            feed@ == line_feed(),
            head_of(stream@) == (match scan_head(stream@.skip(pos as int), declared as nat) {
                Some((h, l)) => Some((pos + h, l)),
                None => None,
            }),
        decreases n - pos,
    {
        let ghost tail = stream@.skip(pos as int);
        proof {
            lemma_first_occurrence(tail, line_feed());
        }
        let i: usize = match find_from(stream, feed.as_slice(), pos) {
            None => { return None; },
            Some(i) => i,
        };
        let line: &[u8] = &stream[pos..i + 1];
        assert(line@ =~= tail.take(i - pos + 1));
        assert(tail.skip(i - pos + 1) =~= stream@.skip(i + 1));
        assert(stream@[i as int] == 10u8) by {
            assert(tail.subrange(i - pos, i - pos + 1) == line_feed());
            assert(tail.subrange(i - pos, i - pos + 1)[0] == 10u8);
        }
        if i == pos + 1 && stream[pos] == 13 {
            assert(line@ =~= crlf());
            return Some((i + 1, declared));
        }
        assert(line@ != crlf()) by {
            if line@ == crlf() {
                assert(line@.len() == 2);
                assert(line@[0] == 13u8);
            }
        }
        let end: usize = if i > pos && stream[i - 1] == 13 { i - 1 } else { i };
        let text: &[u8] = &stream[pos..end];
        assert(stream@.subrange(pos as int, i as int) =~= tail.take(i - pos));
        assert(text@ =~= first_line(tail)) by {
            if end < i {
                assert(text@ =~= tail.take(i - pos).drop_last());
            }
        }
        declared = read_declared(text, declared);
        pos = i + 1;
    }
}

/// Why no request could be framed.
#[derive(Clone, Copy, Debug, PartialEq, Eq, Structural)]
pub enum FrameError {
    /// The stream ended before the head or the declared body was complete.
    TruncatedRequest,
}

/// One framed request: its bytes, and where its head ends.
#[derive(Clone, Debug, PartialEq, Eq)]
pub struct RawMessage {
    /// The head and the body, as they arrived.
    pub bytes: Vec<u8>,
    /// How many of the bytes are the head; the body follows.
    pub head_len: usize,
}

impl RawMessage {
    /// The body: what follows the head.
    pub open spec fn body(&self) -> Seq<u8> {
        self.bytes@.skip(self.head_len as int)
    }

    /// How many bytes of the stream the request took.
    pub fn consumed(&self) -> (n: usize)
        ensures
            n == self.bytes@.len(),
    {
        self.bytes.len()
    }
}

/// Whether `message` is the request that `stream` starts with: its bytes
/// are the first bytes of the stream, its head is the head of the stream,
/// and its body has the length that the head declares.
pub open spec fn is_frame_of(message: RawMessage, stream: Seq<u8>) -> bool {
    &&& head_of(stream) matches Some((h, l))
    &&& message.head_len == h
    &&& message.bytes@.len() == h + l
    &&& message.bytes@ == stream.take(h + l)
    &&& message.body().len() == l
}

/// Frames the request that `stream` starts with. Bytes behind the request
/// are left where they are.
pub fn frame_message(stream: &[u8]) -> (r: Result<RawMessage, FrameError>)
    ensures
        match r {
            Ok(message) => message_len(stream@) is Some && is_frame_of(message, stream@),
            Err(e) => message_len(stream@) is None && e == FrameError::TruncatedRequest,
        },
{
    proof {
        lemma_scan_head_bounds(stream@, 0);
    }
    match find_head(stream) {
        None => Err(FrameError::TruncatedRequest),
        Some((h, l)) => {
            if stream.len() - h >= l {
                let bytes: Vec<u8> = copy_range(stream, 0, h + l);
                assert(bytes@ =~= stream@.take(h + l));
                Ok(RawMessage { bytes, head_len: h })
            } else {
                Err(FrameError::TruncatedRequest)
            }
        },
    }
}

/// Frames the request that arrives in `pieces`, handing the pieces to a
/// framer one by one in their order. The result is the request that the
/// pieces hold when they are put together, however many they are and
/// wherever the stream was cut.
pub fn frame_pieces(pieces: &Vec<Vec<u8>>) -> (r: Result<RawMessage, FrameError>)
    ensures
        match r {
            Ok(message) => message_len(glued(views(pieces@))) is Some && is_frame_of(
                message,
                glued(views(pieces@)),
            ),
            Err(e) => message_len(glued(views(pieces@))) is None && e
                == FrameError::TruncatedRequest,
        },
{
    let mut framer = Framer::new();
    let n: usize = pieces.len();
    let mut i: usize = 0;
    assert(views(pieces@).take(0) =~= Seq::<Seq<u8>>::empty());
    while i < n
        invariant
            n == pieces@.len(),
            i <= n,
            framer@ == glued(views(pieces@).take(i as int)),
        decreases n - i,
    {
        let ghost next = views(pieces@).take(i + 1);
        assert(next.drop_last() =~= views(pieces@).take(i as int));
        assert(next.last() == pieces@[i as int]@);
        framer.push(pieces[i].as_slice());
        i += 1;
    }
    assert(views(pieces@).take(n as int) =~= views(pieces@));
    framer.finish()
}

/// What a framer asks for next.
#[derive(Clone, Copy, Debug, PartialEq, Eq, Structural)]
pub enum FrameStatus {
    /// The request is not complete: read more bytes and hand them over.
    NeedMore,
    /// The request is complete: take it with `finish`.
    Complete,
}

/// What a framer answers to a stream: complete once the stream holds the
/// whole request.
pub open spec fn status_of(stream: Seq<u8>) -> FrameStatus {
    if message_len(stream) is Some {
        FrameStatus::Complete
    } else {
        FrameStatus::NeedMore
    }
}

/// Collects the pieces of a stream until they hold one request.
pub struct Framer {
    received: Vec<u8>,
}

impl View for Framer {
    type V = Seq<u8>;

    /// The bytes received so far, in the order of their arrival.
    closed spec fn view(&self) -> Seq<u8> {
        self.received@
    }
}

impl Framer {
    /// A framer that has received nothing.
    pub fn new() -> (framer: Framer)
        ensures
            framer@ == Seq::<u8>::empty(),
    {
        Framer { received: Vec::new() }
    }

    /// Takes the next piece of the stream and says whether the request is
    /// complete. The answer depends on the bytes received so far and not on
    /// how they were cut into pieces.
    pub fn push(&mut self, chunk: &[u8]) -> (status: FrameStatus)
        ensures
            final(self)@ == old(self)@ + chunk@,
            status == status_of(final(self)@),
    {
        append(&mut self.received, chunk);
        proof {
            lemma_scan_head_bounds(self.received@, 0);
        }
        match find_head(self.received.as_slice()) {
            Some((h, l)) => {
                if self.received.len() - h >= l {
                    FrameStatus::Complete
                } else {
                    FrameStatus::NeedMore
                }
            },
            None => FrameStatus::NeedMore,
        }
    }

    /// Ends the framing: the request, if the bytes received hold all of it,
    /// and `TruncatedRequest` if the stream ended too early.
    pub fn finish(self) -> (r: Result<RawMessage, FrameError>)
        ensures
            match r {
                Ok(message) => message_len(self@) is Some && is_frame_of(message, self@),
                Err(e) => message_len(self@) is None && e == FrameError::TruncatedRequest,
            },
    {
        frame_message(self.received.as_slice())
    }
}

} // verus!
