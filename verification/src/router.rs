//! The path router: from the target of a request to the class of the
//! resource it names, the directory and the name of that resource, and the
//! parameters of its query.

use vstd::prelude::*;
use vstd::string::*;
use crate::bytes::{
    append, bytes_of, contains, copy_range, first_occurrence, join_bytes, join_with,
    lemma_first_occurrence, lemma_join_split, lemma_occurs_at_byte, lemma_split_on_len,
    same_bytes, split_bytes, split_on, views,
};
use crate::headers::fields_view;

verus! {

pub const SLASH: u8 = 47;

pub const DOT: u8 = 46;

pub const QUESTION_MARK: u8 = 63;

pub const AMPERSAND: u8 = 38;

pub const EQUALS_SIGN: u8 = 61;

/// What kind of resource a path names.
#[derive(Clone, Copy, Debug, PartialEq, Eq, Structural)]
pub enum RouteClass {
    /// A page under the pages directory.
    StaticPage,
    /// A file with an extension, in the directory that the path gives.
    StaticAsset,
    /// A call of the API.
    ApiEndpoint,
}

/// Where a request goes.
#[derive(Clone, Debug, PartialEq, Eq)]
pub struct RouteTarget {
    pub class: RouteClass,
    pub directory: Vec<u8>,
    pub resource: Vec<u8>,
    /// The parameters of the query, in the order of their arrival,
    /// repeated keys kept.
    pub query_params: Vec<(Vec<u8>, Vec<u8>)>,
    /// The content type of an image, `image/` and its extension; `None`
    /// for every other resource. An image is sent as raw bytes.
    pub image_type: Option<Vec<u8>>,
}

/// What a `RouteTarget` holds.
pub struct RouteView {
    pub class: RouteClass,
    pub directory: Seq<u8>,
    pub resource: Seq<u8>,
    pub query_params: Seq<(Seq<u8>, Seq<u8>)>,
    pub image_type: Option<Seq<u8>>,
}

impl View for RouteTarget {
    type V = RouteView;

    open spec fn view(&self) -> RouteView {
        RouteView {
            class: self.class,
            directory: self.directory@,
            resource: self.resource@,
            query_params: fields_view(self.query_params@),
            image_type: match self.image_type {
                Some(t) => Some(t@),
                None => None,
            },
        }
    }
}

/// `path` without the slash at its start, if it has one.
pub open spec fn relative(path: Seq<u8>) -> Seq<u8> {
    if path.len() > 0 && path[0] == SLASH {
        path.skip(1)
    } else {
        path
    }
}

/// The segments of a path: the pieces between its slashes, the slash at
/// its start set aside.
pub open spec fn segments(path: Seq<u8>) -> Seq<Seq<u8>> {
    split_on(relative(path), SLASH)
}

/// Whether a dot stands anywhere in `path`.
pub open spec fn has_dot(path: Seq<u8>) -> bool {
    first_occurrence(path, seq![DOT]).is_some()
}

/// The class, the directory and the resource that a path without a query
/// resolves to.
///
/// The path `/` is the page `index.html` in `pages`. A path without a dot
/// is a call of the API if one of its segments is `api`, the resource being
/// its last segment; otherwise it is a page in `pages`, named by its last
/// segment and `.html`. A path with a dot is an asset: its last segment, in
/// the directory that the segments in front of it spell.
pub open spec fn resolve(path: Seq<u8>) -> (RouteClass, Seq<u8>, Seq<u8>) {
    let segs = segments(path);
    if path == seq![SLASH] {
        (RouteClass::StaticPage, "pages".spec_bytes(), "index.html".spec_bytes())
    } else if !has_dot(path) {
        if segs.contains("api".spec_bytes()) {
            (RouteClass::ApiEndpoint, "api".spec_bytes(), segs.last())
        } else {
            (RouteClass::StaticPage, "pages".spec_bytes(), segs.last() + ".html".spec_bytes())
        }
    } else {
        (RouteClass::StaticAsset, join_with(segs.drop_last(), SLASH), segs.last())
    }
}

/// The directory and the resource of an asset spell its path: what the
/// path holds behind the slash at its start is the directory, a slash and
/// the resource, or the resource alone where the path names no directory.
pub proof fn lemma_asset_spells_path(path: Seq<u8>)
    requires
        has_dot(path),
    ensures
        resolve(path).0 == RouteClass::StaticAsset,
        segments(path).len() >= 2 ==> resolve(path).1 + seq![SLASH] + resolve(path).2 == relative(
            path,
        ),
        segments(path).len() < 2 ==> resolve(path).1 == Seq::<u8>::empty() && resolve(path).2
            == relative(path),
{
    let segs = segments(path);
    lemma_split_on_len(relative(path), SLASH);
    lemma_join_split(relative(path), SLASH);
    lemma_first_occurrence(path, seq![DOT]);
    assert(path != seq![SLASH]) by {
        if path == seq![SLASH] {
            let i = first_occurrence(path, seq![DOT])->0;
            lemma_occurs_at_byte(path, DOT, i);
        }
    }
    if segs.len() < 2 {
        assert(segs.drop_last() =~= Seq::<Seq<u8>>::empty());
    }
}

/// The extension of a name: what follows its last dot. A name without a
/// dot is its own extension.
pub open spec fn extension(name: Seq<u8>) -> Seq<u8> {
    split_on(name, DOT).last()
}

/// Whether `ext` is the extension of an image: one of `png`, `jpg`,
/// `jpeg`, `gif` and `ico`, in lower case.
pub open spec fn is_image_extension(ext: Seq<u8>) -> bool {
    ||| ext == "png".spec_bytes()
    ||| ext == "jpg".spec_bytes()
    ||| ext == "jpeg".spec_bytes()
    ||| ext == "gif".spec_bytes()
    ||| ext == "ico".spec_bytes()
}

/// The key and the value of one item of a query: what stands in front of
/// its first `=`, and what stands between that and the next. An item
/// without `=` is a key with an empty value.
pub open spec fn pair_of(item: Seq<u8>) -> (Seq<u8>, Seq<u8>) {
    let kv = split_on(item, EQUALS_SIGN);
    (
        kv[0],
        if kv.len() >= 2 {
            kv[1]
        } else {
            Seq::empty()
        },
    )
}

/// The parameters of a query: one pair for each piece between its `&`, in
/// order.
pub open spec fn query_pairs(query: Seq<u8>) -> Seq<(Seq<u8>, Seq<u8>)> {
    let items = split_on(query, AMPERSAND);
    Seq::new(items.len(), |i: int| pair_of(items[i]))
}

/// The path of a request target: what stands in front of its first `?`.
pub open spec fn path_of(target: Seq<u8>) -> Seq<u8> {
    split_on(target, QUESTION_MARK)[0]
}

/// The parameters of a request target: those of what stands between its
/// first `?` and its second, none where it has no `?`.
pub open spec fn params_of(target: Seq<u8>) -> Seq<(Seq<u8>, Seq<u8>)> {
    let pieces = split_on(target, QUESTION_MARK);
    if pieces.len() >= 2 {
        query_pairs(pieces[1])
    } else {
        Seq::empty()
    }
}

/// Where a request target goes. Its path resolves as `resolve` says; a
/// resource with the extension of an image is then an asset of the
/// directory `images`, whatever directory its path spelled, with the
/// content type `image/` and that extension.
pub open spec fn route_of(target: Seq<u8>) -> RouteView {
    let (class, directory, resource) = resolve(path_of(target));
    let ext = extension(resource);
    if is_image_extension(ext) {
        RouteView {
            class: RouteClass::StaticAsset,
            directory: "images".spec_bytes(),
            resource: resource,
            query_params: params_of(target),
            image_type: Some("image/".spec_bytes() + ext),
        }
    } else {
        RouteView {
            class: class,
            directory: directory,
            resource: resource,
            query_params: params_of(target),
            image_type: None,
        }
    }
}

/// Whether one of `items` holds exactly the bytes `wanted`.
pub fn any_is(items: &Vec<Vec<u8>>, wanted: &[u8]) -> (found: bool)
    ensures
        found == views(items@).contains(wanted@),
{
    let n: usize = items.len();
    let mut i: usize = 0;
    while i < n
        invariant
            n == items@.len(),
            i <= n,
            forall|k: int| 0 <= k < i ==> views(items@)[k] != wanted@,
        decreases n - i,
    {
        if same_bytes(items[i].as_slice(), wanted) {
            assert(views(items@)[i as int] == wanted@);
            return true;
        }
        i += 1;
    }
    false
}

/// The class, the directory and the resource of a path without a query.
pub fn resolve_path(path: &[u8]) -> (r: (RouteClass, Vec<u8>, Vec<u8>))
    ensures
        (r.0, r.1@, r.2@) == resolve(path@),
{
    let n: usize = path.len();
    let start: usize = if n > 0 && path[0] == SLASH { 1 } else { 0 };
    let rel: &[u8] = &path[start..n];
    assert(rel@ =~= relative(path@));
    let segs: Vec<Vec<u8>> = split_bytes(rel, SLASH);
    let count: usize = segs.len();
    let last: &Vec<u8> = &segs[count - 1];
    assert(views(segs@).last() == last@);
    let root: [u8; 1] = [SLASH];
    assert(root@ =~= seq![SLASH]);
    let dot: [u8; 1] = [DOT];
    assert(dot@ =~= seq![DOT]);
    if same_bytes(path, root.as_slice()) {
        (RouteClass::StaticPage, bytes_of("pages"), bytes_of("index.html"))
    } else if !contains(path, dot.as_slice()) {
        if any_is(&segs, "api".as_bytes()) {
            let resource: Vec<u8> = copy_range(last.as_slice(), 0, last.len());
            assert(resource@ =~= last@);
            (RouteClass::ApiEndpoint, bytes_of("api"), resource)
        } else {
            let mut resource: Vec<u8> = copy_range(last.as_slice(), 0, last.len());
            assert(resource@ =~= last@);
            append(&mut resource, ".html".as_bytes());
            (RouteClass::StaticPage, bytes_of("pages"), resource)
        }
    } else {
        let resource: Vec<u8> = copy_range(last.as_slice(), 0, last.len());
        assert(resource@ =~= last@);
        let directory: Vec<u8> = join_bytes(&segs, count - 1, SLASH);
        assert(views(segs@).take(count - 1) =~= views(segs@).drop_last());
        (RouteClass::StaticAsset, directory, resource)
    }
}

/// The directory and the resource that a path without a query resolves
/// to.
pub fn match_type(path: &[u8]) -> (r: (Vec<u8>, Vec<u8>))
    ensures
        r.0@ == resolve(path@).1,
        r.1@ == resolve(path@).2,
{
    let (_class, directory, resource) = resolve_path(path);
    (directory, resource)
}

/// The extension of `name`.
pub fn extension_of(name: &[u8]) -> (ext: Vec<u8>)
    ensures
        ext@ == extension(name@),
{
    let mut pieces: Vec<Vec<u8>> = split_bytes(name, DOT);
    let ghost all = views(pieces@);
    let last: Option<Vec<u8>> = pieces.pop();
    match last {
        Some(ext) => {
            assert(all.last() == ext@);
            ext
        },
        None => Vec::new(),
    }
}

/// Whether `ext` is the extension of an image.
pub fn image_extension(ext: &[u8]) -> (b: bool)
    ensures
        b == is_image_extension(ext@),
{
    same_bytes(ext, "png".as_bytes()) || same_bytes(ext, "jpg".as_bytes()) || same_bytes(
        ext,
        "jpeg".as_bytes(),
    ) || same_bytes(ext, "gif".as_bytes()) || same_bytes(ext, "ico".as_bytes())
}

/// The key and the value of one item of a query.
pub fn split_pair(item: &[u8]) -> (pair: (Vec<u8>, Vec<u8>))
    ensures
        (pair.0@, pair.1@) == pair_of(item@),
{
    let kv: Vec<Vec<u8>> = split_bytes(item, EQUALS_SIGN);
    let key: Vec<u8> = copy_range(kv[0].as_slice(), 0, kv[0].len());
    assert(key@ =~= views(kv@)[0]);
    if kv.len() >= 2 {
        let value: Vec<u8> = copy_range(kv[1].as_slice(), 0, kv[1].len());
        assert(value@ =~= views(kv@)[1]);
        (key, value)
    } else {
        (key, Vec::new())
    }
}

/// The parameters of a query.
pub fn parse_query(query: &[u8]) -> (pairs: Vec<(Vec<u8>, Vec<u8>)>)
    ensures
        fields_view(pairs@) == query_pairs(query@),
{
    let items: Vec<Vec<u8>> = split_bytes(query, AMPERSAND);
    let n: usize = items.len();
    let mut pairs: Vec<(Vec<u8>, Vec<u8>)> = Vec::new();
    let mut i: usize = 0;
    assert(fields_view(pairs@) =~= Seq::new(0nat, |k: int| pair_of(views(items@)[k])));
    while i < n
        invariant
            n == items@.len(),
            i <= n,
            views(items@) == split_on(query@, AMPERSAND),
            pairs@.len() == i,
            fields_view(pairs@) == Seq::new(i as nat, |k: int| pair_of(views(items@)[k])),
        decreases n - i,
    {
        let pair: (Vec<u8>, Vec<u8>) = split_pair(items[i].as_slice());
        let ghost before = fields_view(pairs@);
        let ghost added = (pair.0@, pair.1@);
        assert(added == pair_of(views(items@)[i as int]));
        pairs.push(pair);
        assert(fields_view(pairs@) =~= before.push(added));
        assert(before.push(added) =~= Seq::new(
            (i + 1) as nat,
            |k: int| pair_of(views(items@)[k]),
        ));
        i += 1;
    }
    assert(fields_view(pairs@) =~= query_pairs(query@));
    pairs
}

/// Routes a request target: a path, and a query behind a `?` if there is
/// one.
pub fn route(target: &[u8]) -> (r: RouteTarget)
    ensures
        r@ == route_of(target@),
{
    let pieces: Vec<Vec<u8>> = split_bytes(target, QUESTION_MARK);
    assert(views(pieces@)[0] == pieces@[0]@);
    let query_params: Vec<(Vec<u8>, Vec<u8>)> = if pieces.len() >= 2 {
        assert(views(pieces@)[1] == pieces@[1]@);
        parse_query(pieces[1].as_slice())
    } else {
        let none: Vec<(Vec<u8>, Vec<u8>)> = Vec::new();
        assert(fields_view(none@) =~= Seq::<(Seq<u8>, Seq<u8>)>::empty());
        none
    };
    let (class, directory, resource) = resolve_path(pieces[0].as_slice());
    let ext: Vec<u8> = extension_of(resource.as_slice());
    if image_extension(ext.as_slice()) {
        let mut image_type: Vec<u8> = bytes_of("image/");
        append(&mut image_type, ext.as_slice());
        RouteTarget {
            class: RouteClass::StaticAsset,
            directory: bytes_of("images"),
            resource,
            query_params,
            image_type: Some(image_type),
        }
    } else {
        RouteTarget { class, directory, resource, query_params, image_type: None }
    }
}

} // verus!
