//! What an upload form submits: a title, a text and one image, which is
//! stored under its own name with a fresh suffix, so that two uploads of
//! files of one name do not take the same place.

use vstd::prelude::*;
use vstd::string::*;
use crate::bytes::{
    append, copy_of, first_occurrence, lemma_first_occurrence, lemma_occurs_at_byte,
    lemma_split_last_after_sep, lemma_split_last_has_no_sep, lemma_split_on_len, same_bytes,
    split_bytes, split_on, views,
};
use crate::headers::fields_view;
use crate::multipart::binary::MultipartError;
use crate::multipart::{decode_multipart, decoded, parts_view, MultipartPart, PartView};
use crate::request::{boundary_of, boundary_token, session_token, session_token_of};
use crate::response::{
    bad_request, bad_request_view, upload_unauthorized, upload_unauthorized_view, Response,
};
use crate::router::{extension, DOT};
use crate::user::{may_upload, UserData};

verus! {

/// The fields of an upload.
#[derive(Clone, Debug, PartialEq, Eq)]
pub struct UploadResult {
    pub title: Vec<u8>,
    pub content: Vec<u8>,
    pub image_bytes: Vec<u8>,
    /// The name under which the image is stored.
    pub image_name: Vec<u8>,
}

/// What an `UploadResult` holds.
pub struct UploadView {
    pub title: Seq<u8>,
    pub content: Seq<u8>,
    pub image_bytes: Seq<u8>,
    pub image_name: Seq<u8>,
}

impl View for UploadResult {
    type V = UploadView;

    open spec fn view(&self) -> UploadView {
        UploadView {
            title: self.title@,
            content: self.content@,
            image_bytes: self.image_bytes@,
            image_name: self.image_name@,
        }
    }
}

/// The name under which a file is stored: what stands in front of the
/// first dot of its own name, a hyphen, the suffix, a dot, and the
/// extension of its own name.
pub open spec fn unique_name(given: Seq<u8>, suffix: Seq<u8>) -> Seq<u8> {
    let pieces = split_on(given, DOT);
    pieces[0] + seq![45u8] + suffix + seq![DOT] + pieces.last()
}

/// A stored name has the extension of the name it was made from, whatever
/// the suffix is, and it is never that name itself.
pub proof fn lemma_unique_name(given: Seq<u8>, suffix: Seq<u8>)
    ensures
        extension(unique_name(given, suffix)) == extension(given),
        unique_name(given, suffix) != given,
{
    let pieces = split_on(given, DOT);
    let front = pieces[0] + seq![45u8] + suffix;
    let ext = pieces.last();
    let stored = unique_name(given, suffix);
    lemma_split_on_len(given, DOT);
    assert(stored =~= front + seq![DOT] + ext);
    lemma_split_last_after_sep(front, ext, DOT);
    lemma_split_last_has_no_sep(given, DOT);
    assert(split_on(ext, DOT) =~= seq![ext]);
    lemma_first_occurrence(given, seq![DOT]);
    match first_occurrence(given, seq![DOT]) {
        None => {
            assert(pieces =~= seq![given]);
            assert(stored.len() > given.len());
        },
        Some(i) => {
            assert(pieces[0] == given.take(i));
            lemma_occurs_at_byte(given, DOT, i);
            assert(stored[i] == 45u8);
        },
    }
}

/// The upload as it stands before any field has arrived.
pub open spec fn empty_upload() -> UploadView {
    UploadView {
        title: Seq::empty(),
        content: Seq::empty(),
        image_bytes: Seq::empty(),
        image_name: Seq::empty(),
    }
}

/// The upload `so_far` with one more field taken in. The text of `title`
/// and of `content` replaces what was there. A field `image` that comes
/// with a file name gives the image: its stored name, and its bytes, which
/// are none where the part declared no image. Any other field changes
/// nothing.
pub open spec fn absorb(so_far: UploadView, part: PartView, suffix: Seq<u8>) -> UploadView {
    if part.field_name == "title".spec_bytes() {
        match part.text_value {
            Some(t) => UploadView { title: t, ..so_far },
            None => so_far,
        }
    } else if part.field_name == "content".spec_bytes() {
        match part.text_value {
            Some(t) => UploadView { content: t, ..so_far },
            None => so_far,
        }
    } else if part.field_name == "image".spec_bytes() {
        match part.file_name {
            Some(f) => UploadView {
                image_name: unique_name(f, suffix),
                image_bytes: match part.binary_value {
                    Some(b) => b,
                    None => Seq::empty(),
                },
                ..so_far
            },
            None => so_far,
        }
    } else {
        so_far
    }
}

/// The upload that a list of fields makes, taken in from first to last.
pub open spec fn collected(fields: Seq<PartView>, suffix: Seq<u8>) -> UploadView
    decreases fields.len(),
{
    if fields.len() == 0 {
        empty_upload()
    } else {
        absorb(collected(fields.drop_last(), suffix), fields.last(), suffix)
    }
}

/// Two uploads of the same fields differ in nothing but the suffix: they
/// have the same title, the same text and the same image bytes, and their
/// image names have the same extension.
pub proof fn lemma_collected_twice(fields: Seq<PartView>, one: Seq<u8>, other: Seq<u8>)
    ensures
        collected(fields, one).title == collected(fields, other).title,
        collected(fields, one).content == collected(fields, other).content,
        collected(fields, one).image_bytes == collected(fields, other).image_bytes,
        extension(collected(fields, one).image_name) == extension(
            collected(fields, other).image_name,
        ),
    decreases fields.len(),
{
    if fields.len() > 0 {
        lemma_collected_twice(fields.drop_last(), one, other);
        let part = fields.last();
        match part.file_name {
            Some(f) => {
                lemma_unique_name(f, one);
                lemma_unique_name(f, other);
            },
            None => {},
        }
    }
}

/// The name under which a file that came as `given` is stored with
/// `suffix`.
pub fn unique_image_name(given: &[u8], suffix: &[u8]) -> (name: Vec<u8>)
    ensures
        name@ == unique_name(given@, suffix@),
{
    let pieces: Vec<Vec<u8>> = split_bytes(given, DOT);
    let count: usize = pieces.len();
    assert(views(pieces@)[0] == pieces@[0]@);
    assert(views(pieces@).last() == pieces@[count - 1]@);
    let mut name: Vec<u8> = Vec::new();
    append(&mut name, pieces[0].as_slice());
    name.push(45);
    append(&mut name, suffix);
    name.push(DOT);
    append(&mut name, pieces[count - 1].as_slice());
    assert(name@ =~= unique_name(given@, suffix@));
    name
}

/// The upload that `parts` make, the image stored under a name with
/// `suffix`.
pub fn collect_upload(parts: &Vec<MultipartPart>, suffix: &[u8]) -> (upload: UploadResult)
    ensures
        upload@ == collected(parts_view(parts@), suffix@),
{
    let mut upload: UploadResult = UploadResult {
        title: Vec::new(),
        content: Vec::new(),
        image_bytes: Vec::new(),
        image_name: Vec::new(),
    };
    let n: usize = parts.len();
    let mut i: usize = 0;
    assert(parts_view(parts@).take(0) =~= Seq::<PartView>::empty());
    while i < n
        invariant
            n == parts@.len(),
            i <= n,
            upload@ == collected(parts_view(parts@).take(i as int), suffix@),
        decreases n - i,
    {
        let part: &MultipartPart = &parts[i];
        let ghost next = parts_view(parts@).take(i + 1);
        assert(next.drop_last() =~= parts_view(parts@).take(i as int));
        assert(next.last() == part@);
        if same_bytes(part.field_name.as_slice(), "title".as_bytes()) {
            match &part.text_value {
                Some(t) => {
                    upload.title = copy_of(t);
                },
                None => {},
            }
        } else if same_bytes(part.field_name.as_slice(), "content".as_bytes()) {
            match &part.text_value {
                Some(t) => {
                    upload.content = copy_of(t);
                },
                None => {},
            }
        } else if same_bytes(part.field_name.as_slice(), "image".as_bytes()) {
            match &part.file_name {
                Some(f) => {
                    upload.image_name = unique_image_name(f.as_slice(), suffix);
                    upload.image_bytes = match &part.binary_value {
                        Some(b) => copy_of(b),
                        None => Vec::new(),
                    };
                },
                None => {},
            }
        }
        i += 1;
    }
    assert(parts_view(parts@).take(n as int) =~= parts_view(parts@));
    upload
}

/// Whether `b` is a digit or one of the letters `a` to `f`.
pub open spec fn is_lower_hex(b: u8) -> bool {
    (48 <= b && b <= 57) || (97 <= b && b <= 102)
}

/// The shape of a suffix: 36 bytes, hyphens at the offsets 8, 13, 18 and
/// 23, digits and the letters `a` to `f` everywhere else.
pub open spec fn is_suffix(t: Seq<u8>) -> bool {
    &&& t.len() == 36
    &&& forall|i: int|
        0 <= i < 36 ==> if i == 8 || i == 13 || i == 18 || i == 23 {
            t[i] == 45u8
        } else {
            is_lower_hex(#[trigger] t[i])
        }
}

/// A suffix that no earlier call has returned, but for chance: the text of
/// a random UUID.
///
/// Calls `uuid::Uuid::new_v4` and writes the result as `Display` does. The
/// contract claims the shape of that text and nothing of its value, which
/// differs from call to call. The call panics where the operating system
/// hands out no random bytes.
#[verifier::external_body]
fn fresh_suffix() -> (t: Vec<u8>)
    ensures
        is_suffix(t@),
{
    uuid::Uuid::new_v4().to_string().into_bytes()
}

/// Decodes the body of an upload and collects its fields, the image under
/// a name with a fresh suffix. The result is what `collect_upload` makes of
/// the decoded fields for some suffix of the shape `is_suffix`.
pub fn receive_upload(body: &[u8], boundary: &[u8]) -> (r: Result<UploadResult, MultipartError>)
    ensures
        match decoded(body@, boundary@) {
            Ok(fields) => r matches Ok(upload) && exists|suffix: Seq<u8>| #[trigger]
                is_suffix(suffix) && upload@ == collected(fields, suffix),
            Err(e) => r matches Err(x) && x == e,
        },
{
    match decode_multipart(body, boundary) {
        Err(e) => Err(e),
        Ok(parts) => {
            let suffix: Vec<u8> = fresh_suffix();
            let upload: UploadResult = collect_upload(&parts, suffix.as_slice());
            assert(is_suffix(suffix@) && upload@ == collected(parts_view(parts@), suffix@));
            Ok(upload)
        },
    }
}

/// Whether `r` is what taking an upload off a request gives, the request
/// having the header fields `headers` and the body `body`, and `known`
/// saying whether its session has a user.
///
/// A request without a session token or without a user is answered with
/// 401 and the body `401 UNAUTHORIZED`, whatever its body holds. Otherwise
/// the body is decoded under the boundary token of the headers: a body
/// without the delimiter is answered with 400, and any other gives the
/// upload that its fields make with some suffix of the shape `is_suffix`.
pub open spec fn is_upload(
    r: Result<UploadResult, Response>,
    headers: Seq<(Seq<u8>, Seq<u8>)>,
    body: Seq<u8>,
    known: bool,
) -> bool {
    match r {
        Ok(taken) => {
            &&& session_token_of(headers).len() > 0
            &&& known
            &&& decoded(body, boundary_of(headers)) matches Ok(fields)
            &&& exists|suffix: Seq<u8>| #[trigger]
                is_suffix(suffix) && taken@ == collected(fields, suffix)
        },
        Err(answer) => if session_token_of(headers).len() > 0 && known {
            decoded(body, boundary_of(headers)) is Err && answer@ == bad_request_view()
        } else {
            answer@ == upload_unauthorized_view()
        },
    }
}

/// Taking the same upload twice gives the same but for the suffix: both
/// times the same answer, or both times an upload with the same title, the
/// same text and the same image bytes, under names of the same extension.
pub proof fn lemma_upload_twice(
    headers: Seq<(Seq<u8>, Seq<u8>)>,
    body: Seq<u8>,
    known: bool,
    first: Result<UploadResult, Response>,
    second: Result<UploadResult, Response>,
)
    requires
        is_upload(first, headers, body, known),
        is_upload(second, headers, body, known),
    ensures
        match first {
            Ok(a) => second matches Ok(b) && a@.title == b@.title && a@.content == b@.content
                && a@.image_bytes == b@.image_bytes && extension(a@.image_name) == extension(
                b@.image_name,
            ),
            Err(x) => second matches Err(y) && x@ == y@,
        },
{
    match first {
        Ok(a) => {
            let fields = decoded(body, boundary_of(headers))->Ok_0;
            let b = second->Ok_0;
            let one = choose|suffix: Seq<u8>| #[trigger]
                is_suffix(suffix) && a@ == collected(fields, suffix);
            let other = choose|suffix: Seq<u8>| #[trigger]
                is_suffix(suffix) && b@ == collected(fields, suffix);
            lemma_collected_twice(fields, one, other);
        },
        Err(x) => {},
    }
}

/// Takes an upload off a request. `user` is the user of the session that
/// the request carries.
pub fn upload(headers: &Vec<(Vec<u8>, Vec<u8>)>, body: &[u8], user: &Option<UserData>) -> (r:
    Result<UploadResult, Response>)
    ensures
        is_upload(r, fields_view(headers@), body@, user.is_some()),
{
    let token: Vec<u8> = session_token(headers);
    if !may_upload(token.as_slice(), user) {
        return Err(upload_unauthorized());
    }
    let boundary: Vec<u8> = boundary_token(headers);
    match receive_upload(body, boundary.as_slice()) {
        Ok(taken) => Ok(taken),
        Err(_) => Err(bad_request()),
    }
}

} // verus!
