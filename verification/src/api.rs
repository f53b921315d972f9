//! The answers of the API: rows of the store written as JSON text.
//!
//! The rows are written as they are: a text is put between double quotes
//! without any escaping, as the store holds comments in percent-encoded
//! form.

use vstd::prelude::*;
use vstd::string::*;
use crate::bytes::{append, bytes_of, join_bytes, join_with, same_bytes, views};
use crate::headers::fields_view;
use crate::number::{integer_text, push_integer};
use crate::response::{
    board_not_found, board_not_found_view, typed, typed_view, Response, ResponseView,
};
use crate::template::{fill_template, filled};

verus! {

/// A comma, which separates the items of a list.
pub const COMMA: u8 = 44;

/// A comment as the store holds it.
#[derive(Clone, Debug, PartialEq, Eq)]
pub struct CommentRow {
    pub email: Vec<u8>,
    pub content: Vec<u8>,
    pub datetime: Vec<u8>,
}

/// How many users reacted to a post in one way.
#[derive(Clone, Debug, PartialEq, Eq)]
pub struct ReactionCount {
    pub kind: Vec<u8>,
    pub count: i64,
}

/// A post as the store holds it, with its comments and the counts of its
/// reactions.
#[derive(Clone, Debug, PartialEq, Eq)]
pub struct PostRow {
    pub post_id: i64,
    pub title: Vec<u8>,
    pub content: Vec<u8>,
    pub email: Vec<u8>,
    pub datetime: Vec<u8>,
    pub image: Vec<u8>,
    pub comments: Vec<CommentRow>,
    pub reactions: Vec<ReactionCount>,
}

/// A message as the store holds it.
#[derive(Clone, Debug, PartialEq, Eq)]
pub struct MessageRow {
    pub email: Vec<u8>,
    pub message: Vec<u8>,
    pub datetime: Vec<u8>,
}

/// A list in brackets: the items between `open` and `close`, commas
/// between them.
pub open spec fn listed(open: u8, items: Seq<Seq<u8>>, close: u8) -> Seq<u8> {
    seq![open] + join_with(items, COMMA) + seq![close]
}

/// The JSON text of a comment. The time is marked as UTC.
pub open spec fn comment_json(c: CommentRow) -> Seq<u8> {
    "{\"email\":\"".spec_bytes() + c.email@ + "\",\"content\":\"".spec_bytes() + c.content@
        + "\",\"datetime\":\"".spec_bytes() + c.datetime@ + " UTC\"}".spec_bytes()
}

/// The JSON text of the comments of a post inside the text of that post:
/// a list with commas between the comments.
pub open spec fn comments_json(cs: Seq<CommentRow>) -> Seq<u8> {
    listed(91u8, Seq::new(cs.len(), |i: int| comment_json(cs[i])), 93u8)
}

/// The texts of the comments `cs`, one behind the other with nothing
/// between them.
pub open spec fn comments_in_a_row(cs: Seq<CommentRow>) -> Seq<u8>
    decreases cs.len(),
{
    if cs.len() == 0 {
        Seq::empty()
    } else {
        comments_in_a_row(cs.drop_last()) + comment_json(cs.last())
    }
}

/// The text that the comments endpoint answers with: the comments in
/// square brackets, one behind the other with nothing between them.
pub open spec fn comments_answer(cs: Seq<CommentRow>) -> Seq<u8> {
    seq![91u8] + comments_in_a_row(cs) + seq![93u8]
}

/// The JSON text of one count of reactions: the kind as the name, the
/// count as the value.
pub open spec fn reaction_json(r: ReactionCount) -> Seq<u8> {
    seq![34u8] + r.kind@ + "\":".spec_bytes() + integer_text(r.count as int)
}

/// The JSON text of the counts of reactions: one object.
pub open spec fn reactions_json(rs: Seq<ReactionCount>) -> Seq<u8> {
    listed(123u8, Seq::new(rs.len(), |i: int| reaction_json(rs[i])), 125u8)
}

/// The JSON text of a post.
pub open spec fn post_json(p: PostRow) -> Seq<u8> {
    "{\"post_id\":".spec_bytes() + integer_text(p.post_id as int) + ",\"title\":\"".spec_bytes()
        + p.title@ + "\",\"content\":\"".spec_bytes() + p.content@ + "\",\"email\":\"".spec_bytes()
        + p.email@ + "\",\"datetime\":\"".spec_bytes() + p.datetime@
        + " UTC\",\"image\":\"".spec_bytes() + p.image@ + "\",\"comments\":".spec_bytes()
        + comments_json(p.comments@) + ",\"reactions\":".spec_bytes() + reactions_json(
        p.reactions@,
    ) + seq![125u8]
}

/// The JSON text of a list of posts.
pub open spec fn posts_json(ps: Seq<PostRow>) -> Seq<u8> {
    listed(91u8, Seq::new(ps.len(), |i: int| post_json(ps[i])), 93u8)
}

/// The JSON text of the reaction of a user to a post: the last of the
/// kinds that the store holds for the two, and `null` where it holds
/// none.
pub open spec fn user_reaction_json(kinds: Seq<Seq<u8>>) -> Seq<u8> {
    "{\"type\":\"".spec_bytes() + (if kinds.len() == 0 {
        "null".spec_bytes()
    } else {
        kinds.last()
    }) + "\"}".spec_bytes()
}

/// The JSON text of a message, each member on a line of its own.
pub open spec fn message_json(m: MessageRow) -> Seq<u8> {
    "{\n                \"email\": \"".spec_bytes() + m.email@
        + "\",\n                \"message\": \"".spec_bytes() + m.message@
        + "\",\n                \"datetime\": \"".spec_bytes() + m.datetime@
        + "\"\n            }".spec_bytes()
}

/// The JSON text of a list of messages.
pub open spec fn messages_json(ms: Seq<MessageRow>) -> Seq<u8> {
    listed(91u8, Seq::new(ms.len(), |i: int| message_json(ms[i])), 93u8)
}

/// The items between `open` and `close`, commas between them.
pub fn write_list(open: u8, items: &Vec<Vec<u8>>, close: u8) -> (out: Vec<u8>)
    ensures
        out@ == listed(open, views(items@), close),
{
    let mut out: Vec<u8> = Vec::new();
    out.push(open);
    let inner: Vec<u8> = join_bytes(items, items.len(), COMMA);
    assert(views(items@).take(items@.len() as int) =~= views(items@));
    append(&mut out, inner.as_slice());
    out.push(close);
    assert(out@ =~= listed(open, views(items@), close));
    out
}

/// The JSON text of a comment.
pub fn write_comment(c: &CommentRow) -> (out: Vec<u8>)
    ensures
        out@ == comment_json(*c),
{
    let mut out: Vec<u8> = bytes_of("{\"email\":\"");
    append(&mut out, c.email.as_slice());
    append(&mut out, "\",\"content\":\"".as_bytes());
    append(&mut out, c.content.as_slice());
    append(&mut out, "\",\"datetime\":\"".as_bytes());
    append(&mut out, c.datetime.as_slice());
    append(&mut out, " UTC\"}".as_bytes());
    out
}

/// The JSON text of a list of comments.
pub fn write_comments(cs: &Vec<CommentRow>) -> (out: Vec<u8>)
    ensures
        out@ == comments_json(cs@),
{
    let n: usize = cs.len();
    let mut items: Vec<Vec<u8>> = Vec::new();
    let mut i: usize = 0;
    while i < n
        invariant
            n == cs@.len(),
            i <= n,
            items@.len() == i,
            forall|k: int| 0 <= k < i ==> (#[trigger] items@[k])@ == comment_json(cs@[k]),
        decreases n - i,
    {
        items.push(write_comment(&cs[i]));
        i += 1;
    }
    assert(views(items@) =~= Seq::new(cs@.len(), |i: int| comment_json(cs@[i])));
    write_list(91, &items, 93)
}

/// The text that the comments endpoint answers with.
pub fn write_comments_answer(cs: &Vec<CommentRow>) -> (out: Vec<u8>)
    ensures
        out@ == comments_answer(cs@),
{
    let n: usize = cs.len();
    let mut out: Vec<u8> = Vec::new();
    out.push(91);
    let mut i: usize = 0;
    assert(cs@.take(0) =~= Seq::<CommentRow>::empty());
    assert(out@ =~= seq![91u8] + comments_in_a_row(cs@.take(0)));
    while i < n
        invariant
            n == cs@.len(),
            i <= n,
            out@ == seq![91u8] + comments_in_a_row(cs@.take(i as int)),
        decreases n - i,
    {
        let ghost next = cs@.take(i + 1);
        assert(next.drop_last() =~= cs@.take(i as int));
        assert(next.last() == cs@[i as int]);
        let one: Vec<u8> = write_comment(&cs[i]);
        append(&mut out, one.as_slice());
        assert(out@ =~= seq![91u8] + comments_in_a_row(next));
        i += 1;
    }
    assert(cs@.take(n as int) =~= cs@);
    out.push(93);
    out
}

/// The JSON text of one count of reactions.
pub fn write_reaction(r: &ReactionCount) -> (out: Vec<u8>)
    ensures
        out@ == reaction_json(*r),
{
    let mut out: Vec<u8> = Vec::new();
    out.push(34);
    append(&mut out, r.kind.as_slice());
    append(&mut out, "\":".as_bytes());
    push_integer(&mut out, r.count);
    assert(out@ =~= reaction_json(*r));
    out
}

/// The JSON text of the counts of reactions.
pub fn write_reactions(rs: &Vec<ReactionCount>) -> (out: Vec<u8>)
    ensures
        out@ == reactions_json(rs@),
{
    let n: usize = rs.len();
    let mut items: Vec<Vec<u8>> = Vec::new();
    let mut i: usize = 0;
    while i < n
        invariant
            n == rs@.len(),
            i <= n,
            items@.len() == i,
            forall|k: int| 0 <= k < i ==> (#[trigger] items@[k])@ == reaction_json(rs@[k]),
        decreases n - i,
    {
        items.push(write_reaction(&rs[i]));
        i += 1;
    }
    assert(views(items@) =~= Seq::new(rs@.len(), |i: int| reaction_json(rs@[i])));
    write_list(123, &items, 125)
}

/// The JSON text of a post.
pub fn write_post(p: &PostRow) -> (out: Vec<u8>)
    ensures
        out@ == post_json(*p),
{
    let mut out: Vec<u8> = bytes_of("{\"post_id\":");
    push_integer(&mut out, p.post_id);
    append(&mut out, ",\"title\":\"".as_bytes());
    append(&mut out, p.title.as_slice());
    append(&mut out, "\",\"content\":\"".as_bytes());
    append(&mut out, p.content.as_slice());
    append(&mut out, "\",\"email\":\"".as_bytes());
    append(&mut out, p.email.as_slice());
    append(&mut out, "\",\"datetime\":\"".as_bytes());
    append(&mut out, p.datetime.as_slice());
    append(&mut out, " UTC\",\"image\":\"".as_bytes());
    append(&mut out, p.image.as_slice());
    append(&mut out, "\",\"comments\":".as_bytes());
    let comments: Vec<u8> = write_comments(&p.comments);
    append(&mut out, comments.as_slice());
    append(&mut out, ",\"reactions\":".as_bytes());
    let reactions: Vec<u8> = write_reactions(&p.reactions);
    append(&mut out, reactions.as_slice());
    out.push(125);
    out
}

/// The JSON text of a list of posts.
pub fn write_posts(ps: &Vec<PostRow>) -> (out: Vec<u8>)
    ensures
        out@ == posts_json(ps@),
{
    let n: usize = ps.len();
    let mut items: Vec<Vec<u8>> = Vec::new();
    let mut i: usize = 0;
    while i < n
        invariant
            n == ps@.len(),
            i <= n,
            items@.len() == i,
            forall|k: int| 0 <= k < i ==> (#[trigger] items@[k])@ == post_json(ps@[k]),
        decreases n - i,
    {
        items.push(write_post(&ps[i]));
        i += 1;
    }
    assert(views(items@) =~= Seq::new(ps@.len(), |i: int| post_json(ps@[i])));
    write_list(91, &items, 93)
}

/// The JSON text of the reaction of a user to a post. `kinds` are the
/// kinds that the store holds for the two.
pub fn write_user_reaction(kinds: &Vec<Vec<u8>>) -> (out: Vec<u8>)
    ensures
        out@ == user_reaction_json(views(kinds@)),
{
    let mut out: Vec<u8> = bytes_of("{\"type\":\"");
    let n: usize = kinds.len();
    if n == 0 {
        append(&mut out, "null".as_bytes());
    } else {
        assert(views(kinds@).last() == kinds@[n - 1]@);
        append(&mut out, kinds[n - 1].as_slice());
    }
    append(&mut out, "\"}".as_bytes());
    out
}

/// The JSON text of a message.
pub fn write_message(m: &MessageRow) -> (out: Vec<u8>)
    ensures
        out@ == message_json(*m),
{
    let mut out: Vec<u8> = bytes_of("{\n                \"email\": \"");
    append(&mut out, m.email.as_slice());
    append(&mut out, "\",\n                \"message\": \"".as_bytes());
    append(&mut out, m.message.as_slice());
    append(&mut out, "\",\n                \"datetime\": \"".as_bytes());
    append(&mut out, m.datetime.as_slice());
    append(&mut out, "\"\n            }".as_bytes());
    out
}

/// The JSON text of a list of messages.
pub fn write_messages(ms: &Vec<MessageRow>) -> (out: Vec<u8>)
    ensures
        out@ == messages_json(ms@),
{
    let n: usize = ms.len();
    let mut items: Vec<Vec<u8>> = Vec::new();
    let mut i: usize = 0;
    while i < n
        invariant
            n == ms@.len(),
            i <= n,
            items@.len() == i,
            forall|k: int| 0 <= k < i ==> (#[trigger] items@[k])@ == message_json(ms@[k]),
        decreases n - i,
    {
        items.push(write_message(&ms[i]));
        i += 1;
    }
    assert(views(items@) =~= Seq::new(ms@.len(), |i: int| message_json(ms@[i])));
    write_list(91, &items, 93)
}

/// What `json_answer` holds: the status 200 and the text, declared as JSON.
pub open spec fn json_view(text: Seq<u8>) -> ResponseView {
    typed_view("application/json".spec_bytes(), text)
}

/// The answer that carries JSON text.
pub fn json_answer(text: Vec<u8>) -> (r: Response)
    ensures
        r@ == json_view(text@),
{
    typed(bytes_of("application/json"), text)
}

/// The answer to a GET that calls the API: the text that the endpoint
/// gives, declared as JSON, with the placeholders of the variables filled
/// in as in every answer that is text.
pub fn api_answer(text: Vec<u8>, variables: &Vec<(Vec<u8>, Vec<u8>)>) -> (r: Response)
    ensures
        r@ == json_view(filled(text@, fields_view(variables@))),
{
    json_answer(fill_template(text.as_slice(), variables))
}

/// The answer of the message board: the list of messages for the endpoint
/// `messages`, and the status 404 without a body for any other.
pub fn handle_api(endpoint: &[u8], messages: &Vec<MessageRow>) -> (r: Response)
    ensures
        r@ == (if endpoint@ == "messages".spec_bytes() {
            json_view(messages_json(messages@))
        } else {
            board_not_found_view()
        }),
{
    if same_bytes(endpoint, "messages".as_bytes()) {
        json_answer(write_messages(messages))
    } else {
        board_not_found()
    }
}

} // verus!
