//! The body of a posted form: percent-decoded and cut into its items.

use vstd::prelude::*;
use crate::bytes::{copy_range, split_bytes, split_on, views};
use crate::router::{AMPERSAND, EQUALS_SIGN};

verus! {

/// The value of a hexadecimal digit, in either case.
pub open spec fn hex_value(b: u8) -> Option<int> {
    if 48 <= b && b <= 57 {
        Some(b - 48)
    } else if 65 <= b && b <= 70 {
        Some(b - 55)
    } else if 97 <= b && b <= 102 {
        Some(b - 87)
    } else {
        None
    }
}

/// `s` with its percent escapes resolved. A percent sign and two
/// hexadecimal digits stand for the byte that the digits write. A percent
/// sign that no two hexadecimal digits follow stands for itself, and so
/// does every other byte; a plus sign stays a plus sign.
pub open spec fn percent_decoded(s: Seq<u8>) -> Seq<u8>
    decreases s.len(),
{
    if s.len() == 0 {
        Seq::empty()
    } else if s[0] != 37u8 {
        seq![s[0]] + percent_decoded(s.skip(1))
    } else if s.len() < 3 {
        s
    } else {
        match hex_value(s[1]) {
            None => seq![37u8] + percent_decoded(s.skip(1)),
            Some(high) => match hex_value(s[2]) {
                None => seq![37u8, s[1]] + percent_decoded(s.skip(2)),
                Some(low) => seq![(high * 16 + low) as u8] + percent_decoded(s.skip(3)),
            },
        }
    }
}

/// Resolves the percent escapes of `data`.
///
/// Calls `urlencoding::decode_binary`. The contract states what that
/// function returns for every input, as its source shows it: escapes are
/// resolved from left to right, and where a percent sign is not followed by
/// two hexadecimal digits the percent sign is kept and decoding goes on
/// with the byte behind it, or behind the one digit that did follow.
#[verifier::external_body]
fn percent_decode(data: &[u8]) -> (out: Vec<u8>)
    ensures
        out@ == percent_decoded(data@),
{
    urlencoding::decode_binary(data).into_owned()
}

/// `s` without the bytes `b` at its end.
pub open spec fn strip_trailing(s: Seq<u8>, b: u8) -> Seq<u8>
    decreases s.len(),
{
    if s.len() > 0 && s.last() == b {
        strip_trailing(s.drop_last(), b)
    } else {
        s
    }
}

/// The items of a form body: the pieces between the `&` of the decoded
/// body, each without the zero bytes at its end.
pub open spec fn form_items_of(body: Seq<u8>) -> Seq<Seq<u8>> {
    let pieces = split_on(percent_decoded(body), AMPERSAND);
    Seq::new(pieces.len(), |i: int| strip_trailing(pieces[i], 0u8))
}

/// The key and the value of an item that holds exactly one `=`; `None` for
/// an item with none or with more than one.
pub open spec fn exact_pair(item: Seq<u8>) -> Option<(Seq<u8>, Seq<u8>)> {
    let kv = split_on(item, EQUALS_SIGN);
    if kv.len() == 2 {
        Some((kv[0], kv[1]))
    } else {
        None
    }
}

/// `s` without the bytes `b` at its end.
pub fn strip_end(s: &[u8], b: u8) -> (out: Vec<u8>)
    ensures
        out@ == strip_trailing(s@, b),
{
    let mut hi: usize = s.len();
    assert(s@.take(hi as int) =~= s@);
    while hi > 0 && s[hi - 1] == b
        invariant
            hi <= s@.len(),
            strip_trailing(s@, b) == strip_trailing(s@.take(hi as int), b),
        decreases hi,
    {
        assert(s@.take(hi as int).drop_last() =~= s@.take(hi - 1));
        hi -= 1;
    }
    let out: Vec<u8> = copy_range(s, 0, hi);
    assert(out@ =~= s@.take(hi as int));
    out
}

/// The items of a form body.
pub fn form_items(body: &[u8]) -> (items: Vec<Vec<u8>>)
    ensures
        views(items@) == form_items_of(body@),
{
    let decoded: Vec<u8> = percent_decode(body);
    let pieces: Vec<Vec<u8>> = split_bytes(decoded.as_slice(), AMPERSAND);
    let n: usize = pieces.len();
    let mut items: Vec<Vec<u8>> = Vec::new();
    let mut i: usize = 0;
    assert(views(items@) =~= Seq::new(0nat, |k: int| strip_trailing(views(pieces@)[k], 0u8)));
    while i < n
        invariant
            n == pieces@.len(),
            i <= n,
            views(items@) == Seq::new(i as nat, |k: int| strip_trailing(views(pieces@)[k], 0u8)),
        decreases n - i,
    {
        let item: Vec<u8> = strip_end(pieces[i].as_slice(), 0);
        let ghost before = views(items@);
        items.push(item);
        assert(views(items@) =~= before.push(item@));
        assert(before.push(item@) =~= Seq::new(
            (i + 1) as nat,
            |k: int| strip_trailing(views(pieces@)[k], 0u8),
        ));
        i += 1;
    }
    assert(views(items@) =~= form_items_of(body@));
    items
}

/// The key and the value of an item that holds exactly one `=`.
pub fn split_exact_pair(item: &[u8]) -> (pair: Option<(Vec<u8>, Vec<u8>)>)
    ensures
        match pair {
            Some((k, v)) => exact_pair(item@) == Some((k@, v@)),
            None => exact_pair(item@) is None,
        },
{
    let mut kv: Vec<Vec<u8>> = split_bytes(item, EQUALS_SIGN);
    if kv.len() != 2 {
        return None;
    }
    let ghost all = views(kv@);
    let value: Option<Vec<u8>> = kv.pop();
    let key: Option<Vec<u8>> = kv.pop();
    match (key, value) {
        (Some(k), Some(v)) => {
            assert(all[0] == k@);
            assert(all[1] == v@);
            Some((k, v))
        },
        _ => None,
    }
}

} // verus!
