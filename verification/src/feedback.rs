//! Comments and reactions: what a posted form asks the store to write.

use vstd::prelude::*;
use vstd::string::*;
use crate::bytes::{copy_range, matches_at, occurs_at, split_bytes, split_on, views};
use crate::form::{
    exact_pair, hex_value, percent_decoded, split_exact_pair, strip_end, strip_trailing,
};
use crate::headers::{fields_view, find_header, lookup};
use crate::number::{integer, parse_integer};
use crate::router::EQUALS_SIGN;

verus! {

/// Whether `b` may stand in percent-encoded text as it is: a letter, a
/// digit, a hyphen, a dot, an underscore or a tilde.
pub open spec fn is_unreserved(b: u8) -> bool {
    (48 <= b && b <= 57) || (65 <= b && b <= 90) || (97 <= b && b <= 122) || b == 45 || b == 46
        || b == 95 || b == 126
}

/// The hexadecimal digit of a number below 16, letters in capitals.
pub open spec fn hex_digit(n: int) -> u8 {
    if n < 10 {
        (48 + n) as u8
    } else {
        (55 + n) as u8
    }
}

/// `s` percent-encoded: every byte that is not unreserved is written as a
/// percent sign and its two hexadecimal digits.
pub open spec fn percent_encoded(s: Seq<u8>) -> Seq<u8>
    decreases s.len(),
{
    if s.len() == 0 {
        Seq::empty()
    } else {
        (if is_unreserved(s[0]) {
            seq![s[0]]
        } else {
            seq![37u8, hex_digit(s[0] as int / 16), hex_digit(s[0] as int % 16)]
        }) + percent_encoded(s.skip(1))
    }
}

/// Decoding gives back what was encoded, whatever bytes that holds.
pub proof fn lemma_percent_round_trip(s: Seq<u8>)
    ensures
        percent_decoded(percent_encoded(s)) == s,
    decreases s.len(),
{
    if s.len() > 0 {
        let b = s[0];
        let rest = percent_encoded(s.skip(1));
        let text = percent_encoded(s);
        lemma_percent_round_trip(s.skip(1));
        if is_unreserved(b) {
            assert(text =~= seq![b] + rest);
            assert(text.skip(1) =~= rest);
            assert(percent_decoded(text) =~= seq![b] + percent_decoded(rest));
        } else {
            let high = hex_digit(b as int / 16);
            let low = hex_digit(b as int % 16);
            assert(text =~= seq![37u8, high, low] + rest);
            assert(text.skip(3) =~= rest);
            assert(hex_value(high) == Some(b as int / 16));
            assert(hex_value(low) == Some(b as int % 16));
            assert(percent_decoded(text) =~= seq![b] + percent_decoded(rest));
        }
        assert(seq![b] + s.skip(1) =~= s);
    } else {
        assert(percent_decoded(percent_encoded(s)) =~= s);
    }
}

/// Percent-encodes `data`.
///
/// Calls `urlencoding::encode_binary`, which keeps letters, digits,
/// hyphens, dots, underscores and tildes and writes every other byte as a
/// percent sign and two hexadecimal digits in capitals.
#[verifier::external_body]
fn percent_encode(data: &[u8]) -> (out: Vec<u8>)
    ensures
        out@ == percent_encoded(data@),
{
    urlencoding::encode_binary(data).into_owned().into_bytes()
}

/// `s` with every plus sign turned into a space.
pub open spec fn spaced(s: Seq<u8>) -> Seq<u8> {
    Seq::new(
        s.len(),
        |i: int|
            if s[i] == 43u8 {
                32u8
            } else {
                s[i]
            },
    )
}

/// The parameters of a form: the key and the value of each item that
/// holds exactly one `=`, in order, the plus signs of the value turned
/// into spaces.
pub open spec fn form_params(items: Seq<Seq<u8>>) -> Seq<(Seq<u8>, Seq<u8>)>
    decreases items.len(),
{
    if items.len() == 0 {
        Seq::empty()
    } else {
        let before = form_params(items.drop_last());
        match exact_pair(items.last()) {
            Some((k, v)) => before.push((k, spaced(v))),
            None => before,
        }
    }
}

/// `s` with every plus sign turned into a space.
pub fn plus_to_space(s: &[u8]) -> (out: Vec<u8>)
    ensures
        out@ == spaced(s@),
{
    let n: usize = s.len();
    let mut out: Vec<u8> = Vec::new();
    let mut i: usize = 0;
    while i < n
        invariant
            n == s@.len(),
            i <= n,
            out@ == spaced(s@).take(i as int),
        decreases n - i,
    {
        let b: u8 = if s[i] == 43 { 32 } else { s[i] };
        out.push(b);
        assert(out@ =~= spaced(s@).take(i + 1));
        i += 1;
    }
    assert(spaced(s@).take(n as int) =~= spaced(s@));
    out
}

/// The parameters of a form.
pub fn read_form_params(items: &Vec<Vec<u8>>) -> (params: Vec<(Vec<u8>, Vec<u8>)>)
    ensures
        fields_view(params@) == form_params(views(items@)),
{
    let n: usize = items.len();
    let mut params: Vec<(Vec<u8>, Vec<u8>)> = Vec::new();
    let mut i: usize = 0;
    assert(views(items@).take(0) =~= Seq::<Seq<u8>>::empty());
    assert(fields_view(params@) =~= Seq::<(Seq<u8>, Seq<u8>)>::empty());
    while i < n
        invariant
            n == items@.len(),
            i <= n,
            fields_view(params@) == form_params(views(items@).take(i as int)),
        decreases n - i,
    {
        let ghost next = views(items@).take(i + 1);
        assert(next.drop_last() =~= views(items@).take(i as int));
        assert(next.last() == items@[i as int]@);
        match split_exact_pair(items[i].as_slice()) {
            Some((k, v)) => {
                let value: Vec<u8> = plus_to_space(v.as_slice());
                let ghost before = fields_view(params@);
                params.push((k, value));
                assert(fields_view(params@) =~= before.push((k@, value@)));
            },
            None => {},
        }
        i += 1;
    }
    assert(views(items@).take(n as int) =~= views(items@));
    params
}

/// Why a form is turned down.
#[derive(Clone, Copy, Debug, PartialEq, Eq, Structural)]
pub enum Refusal {
    /// The client has no known session: answer 401.
    Unauthorized,
    /// A field is missing, empty or not a number: answer 400.
    BadRequest,
}

/// A comment to store.
#[derive(Clone, Debug, PartialEq, Eq)]
pub struct NewComment {
    pub email: Vec<u8>,
    /// The text of the comment, percent-encoded.
    pub content: Vec<u8>,
    pub post_id: i64,
}

/// The comment that a form asks to store, for the user with the email
/// address `user`: `(email, content, post_id)`.
///
/// Without a user the form is turned down as unauthorized, whatever it
/// holds. Otherwise it needs a `content` that is more than line feeds, and
/// a `post_id` that is an integer.
pub open spec fn comment_of(items: Seq<Seq<u8>>, user: Option<Seq<u8>>) -> Result<
    (Seq<u8>, Seq<u8>, int),
    Refusal,
> {
    let params = form_params(items);
    match user {
        None => Err(Refusal::Unauthorized),
        Some(email) => match lookup(params, "content".spec_bytes()) {
            None => Err(Refusal::BadRequest),
            Some(text) => if strip_trailing(text, 10u8).len() == 0 {
                Err(Refusal::BadRequest)
            } else {
                match lookup(params, "post_id".spec_bytes()) {
                    None => Err(Refusal::BadRequest),
                    Some(number) => match integer(number) {
                        None => Err(Refusal::BadRequest),
                        Some(id) => Ok((email, percent_encoded(text), id)),
                    },
                }
            },
        },
    }
}

/// Reads the form of a comment. `user` is the email address of the user
/// whose session the request carries, `None` where the session is not
/// known.
pub fn comment_request(items: &Vec<Vec<u8>>, user: Option<&[u8]>) -> (r: Result<
    NewComment,
    Refusal,
>)
    ensures
        match comment_of(
            views(items@),
            match user {
                Some(e) => Some(e@),
                None => None,
            },
        ) {
            Ok((email, content, id)) => r matches Ok(c) && c.email@ == email && c.content@
                == content && c.post_id == id,
            Err(e) => r matches Err(x) && x == e,
        },
{
    let params: Vec<(Vec<u8>, Vec<u8>)> = read_form_params(items);
    let email: &[u8] = match user {
        None => { return Err(Refusal::Unauthorized); },
        Some(e) => e,
    };
    let text: &Vec<u8> = match find_header(&params, "content".as_bytes()) {
        None => { return Err(Refusal::BadRequest); },
        Some(t) => t,
    };
    let bare: Vec<u8> = strip_end(text.as_slice(), 10);
    if bare.len() == 0 {
        return Err(Refusal::BadRequest);
    }
    let number: &Vec<u8> = match find_header(&params, "post_id".as_bytes()) {
        None => { return Err(Refusal::BadRequest); },
        Some(n) => n,
    };
    let post_id: i64 = match parse_integer(number.as_slice()) {
        None => { return Err(Refusal::BadRequest); },
        Some(id) => id,
    };
    let owner: Vec<u8> = copy_range(email, 0, email.len());
    assert(owner@ =~= email@);
    Ok(NewComment { email: owner, content: percent_encode(text.as_slice()), post_id })
}

/// Whether `item` starts with `prefix`.
pub open spec fn starts_with(item: Seq<u8>, prefix: Seq<u8>) -> bool {
    occurs_at(item, prefix, 0)
}

/// The value of the first of `items` that starts with `prefix`: what
/// stands between its first `=` and its second, without the line feeds at
/// its end. `None` where no item starts with `prefix`.
pub open spec fn prefixed_value(items: Seq<Seq<u8>>, prefix: Seq<u8>) -> Option<Seq<u8>>
    decreases items.len(),
{
    if items.len() == 0 {
        None
    } else if starts_with(items[0], prefix) {
        let pieces = split_on(items[0], EQUALS_SIGN);
        Some(
            strip_trailing(
                if pieces.len() >= 2 {
                    pieces[1]
                } else {
                    Seq::empty()
                },
                10u8,
            ),
        )
    } else {
        prefixed_value(items.skip(1), prefix)
    }
}

/// The value of the first of `items` that starts with `prefix`.
pub fn find_prefixed(items: &Vec<Vec<u8>>, prefix: &[u8]) -> (r: Option<Vec<u8>>)
    ensures
        match r {
            Some(v) => prefixed_value(views(items@), prefix@) == Some(v@),
            None => prefixed_value(views(items@), prefix@) is None,
        },
{
    let n: usize = items.len();
    let mut i: usize = 0;
    assert(views(items@).skip(0) =~= views(items@));
    while i < n
        invariant
            n == items@.len(),
            i <= n,
            prefixed_value(views(items@), prefix@) == prefixed_value(
                views(items@).skip(i as int),
                prefix@,
            ),
        decreases n - i,
    {
        let ghost rest = views(items@).skip(i as int);
        assert(rest[0] == items@[i as int]@);
        assert(rest.skip(1) =~= views(items@).skip(i + 1));
        let item: &[u8] = items[i].as_slice();
        if prefix.len() <= item.len() && matches_at(item, prefix, 0) {
            let pieces: Vec<Vec<u8>> = split_bytes(item, EQUALS_SIGN);
            if pieces.len() >= 2 {
                assert(views(pieces@)[1] == pieces@[1]@);
                return Some(strip_end(pieces[1].as_slice(), 10));
            } else {
                let none: [u8; 0] = [];
                assert(none@ =~= Seq::<u8>::empty());
                return Some(strip_end(none.as_slice(), 10));
            }
        }
        i += 1;
    }
    None
}

/// A reaction to store.
#[derive(Clone, Debug, PartialEq, Eq)]
pub struct NewReaction {
    pub email: Vec<u8>,
    pub post_id: i64,
    pub reaction: Vec<u8>,
}

/// The reaction that a form asks to store, for the user with the email
/// address `user`: `(email, post_id, reaction)`.
///
/// Without a user the form is turned down as unauthorized. Otherwise it
/// needs an item `post_id=` with an integer and an item `reaction=`.
pub open spec fn reaction_of(items: Seq<Seq<u8>>, user: Option<Seq<u8>>) -> Result<
    (Seq<u8>, int, Seq<u8>),
    Refusal,
> {
    match user {
        None => Err(Refusal::Unauthorized),
        Some(email) => match prefixed_value(items, "post_id=".spec_bytes()) {
            None => Err(Refusal::BadRequest),
            Some(number) => match integer(number) {
                None => Err(Refusal::BadRequest),
                Some(id) => match prefixed_value(items, "reaction=".spec_bytes()) {
                    None => Err(Refusal::BadRequest),
                    Some(reaction) => Ok((email, id, reaction)),
                },
            },
        },
    }
}

/// Reads the form of a reaction. `user` is the email address of the user
/// whose session the request carries, `None` where the session is not
/// known.
pub fn reaction_request(items: &Vec<Vec<u8>>, user: Option<&[u8]>) -> (r: Result<
    NewReaction,
    Refusal,
>)
    ensures
        match reaction_of(
            views(items@),
            match user {
                Some(e) => Some(e@),
                None => None,
            },
        ) {
            Ok((email, id, reaction)) => r matches Ok(n) && n.email@ == email && n.post_id == id
                && n.reaction@ == reaction,
            Err(e) => r matches Err(x) && x == e,
        },
{
    let email: &[u8] = match user {
        None => { return Err(Refusal::Unauthorized); },
        Some(e) => e,
    };
    let number: Vec<u8> = match find_prefixed(items, "post_id=".as_bytes()) {
        None => { return Err(Refusal::BadRequest); },
        Some(n) => n,
    };
    let post_id: i64 = match parse_integer(number.as_slice()) {
        None => { return Err(Refusal::BadRequest); },
        Some(id) => id,
    };
    let reaction: Vec<u8> = match find_prefixed(items, "reaction=".as_bytes()) {
        None => { return Err(Refusal::BadRequest); },
        Some(r) => r,
    };
    let owner: Vec<u8> = copy_range(email, 0, email.len());
    assert(owner@ =~= email@);
    Ok(NewReaction { email: owner, post_id, reaction })
}

/// How a reaction is written to the store.
#[derive(Clone, Copy, Debug, PartialEq, Eq, Structural)]
pub enum ReactionWrite {
    /// The user has reacted to the post before: change that reaction.
    Update,
    /// The user has not: add the reaction.
    Insert,
}

/// How a reaction is written, given whether the user has reacted to the
/// post before: a user has one reaction to a post.
pub fn reaction_write(reacted_before: bool) -> (w: ReactionWrite)
    ensures
        w == (if reacted_before {
            ReactionWrite::Update
        } else {
            ReactionWrite::Insert
        }),
{
    if reacted_before {
        ReactionWrite::Update
    } else {
        ReactionWrite::Insert
    }
}

} // verus!
