//! The dispatcher: what to do with a request, given where it goes and
//! what is known of the client.
//!
//! The dispatcher reads no file and asks no store. The caller finds out
//! whether the file exists and whether the session is known, and hands
//! both over as plain values.

use vstd::prelude::*;
use vstd::string::*;
use crate::bytes::{
    bytes_of, copy_of, lemma_first_occurrence_is, lemma_occurs_at_byte, lemma_split_without_sep,
    occurs_at, same_bytes, split_on,
};
use crate::headers::{fields_view, find_header, lookup};
use crate::number::{integer, parse_integer};
use crate::feedback::Refusal;
use crate::request::{
    announces_multipart, is_multipart, Method, ParseError, ParsedRequest, RequestView,
};
use crate::response::{
    bad_request, bad_request_view, endpoint_not_found, endpoint_not_found_view,
    malformed_request, malformed_request_view, method_not_allowed, method_not_allowed_view,
    not_found, not_found_page, not_found_page_view, not_found_view, page, page_view, redirect,
    redirect_view, session_ended, session_ended_view, typed, typed_view, unauthorized,
    unauthorized_view, Response, ResponseView,
};
use crate::template::{fill_template, filled};
use crate::router::{
    extension, is_image_extension, params_of, path_of, relative, resolve, route_of, segments,
    RouteClass, RouteTarget, RouteView, DOT, QUESTION_MARK, SLASH,
};

verus! {

/// What kind of handling a request gets.
#[derive(Clone, Copy, Debug, PartialEq, Eq, Structural)]
pub enum Plan {
    /// A form with a file: decode its body as multipart.
    Upload,
    /// A GET: route the target and decide with `decide_get`.
    Get,
    /// A POST of a form: pick the endpoint with `form_endpoint`.
    Post,
    /// Any other method: answer 405.
    NotAllowed,
}

/// The handling that a request gets. A POST to `/api/upload` that
/// announces a multipart body is an upload; otherwise the method decides.
pub open spec fn plan_of(r: RequestView) -> Plan {
    if announces_multipart(r.headers) && r.path == "/api/upload".spec_bytes() && r.method
        == Method::Post {
        Plan::Upload
    } else {
        match r.method {
            Method::Get => Plan::Get,
            Method::Post => Plan::Post,
            Method::Other => Plan::NotAllowed,
        }
    }
}

/// The handling that `request` gets.
pub fn plan(request: &ParsedRequest) -> (p: Plan)
    ensures
        p == plan_of(request@),
{
    let upload: bool = match request.method {
        Method::Post => same_bytes(request.path.as_slice(), "/api/upload".as_bytes())
            && is_multipart(&request.headers),
        _ => false,
    };
    if upload {
        Plan::Upload
    } else {
        match request.method {
            Method::Get => Plan::Get,
            Method::Post => Plan::Post,
            Method::Other => Plan::NotAllowed,
        }
    }
}

/// What to do for a GET.
#[derive(Clone, Copy, Debug, PartialEq, Eq, Structural)]
pub enum GetAction {
    /// Call the API for the list of posts.
    CallPosts,
    /// Call the API for the comments of a post.
    CallComments(i64),
    /// Call the API for the reaction of the client to a post.
    CallUserReaction(i64),
    /// The API has no endpoint of that name: answer 404.
    UnknownEndpoint,
    /// The query names a post by something that is no integer: answer 400.
    BadRequest,
    /// The file does not exist: answer 404 with the not-found page.
    NotFoundPage,
    /// The client has no session and asks for another page than the login
    /// page: send it to the login page.
    RedirectToLogin,
    /// The client has a session and asks for the login page: send it home.
    RedirectToHome,
    /// Read the file and send it as a page, its placeholders filled in.
    ServePage,
    /// Read the file and send its bytes as an image.
    ServeImage,
}

/// The post that a query asks for: its parameter `post_id` read as an
/// integer, and 1 where it has none. `None` where the parameter is no
/// integer.
pub open spec fn requested_post(params: Seq<(Seq<u8>, Seq<u8>)>) -> Option<int> {
    match lookup(params, "post_id".spec_bytes()) {
        Some(v) => integer(v),
        None => Some(1),
    }
}

/// The name of the login page.
pub open spec fn login_page() -> Seq<u8> {
    "login.html".spec_bytes()
}

/// What to do for a GET that goes to `target`.
///
/// A call of the API goes to the endpoint that the resource names, with the
/// post that the query asks for; the dispatcher asks neither for the file
/// nor for the session. For a page or an asset the file must exist; then a
/// client without a session is sent to the login page unless that is what
/// it asks for, a client with a session that asks for the login page is
/// sent home, and everyone else gets the content.
pub open spec fn get_action(target: RouteView, exists: bool, authenticated: bool) -> GetAction {
    match target.class {
        RouteClass::ApiEndpoint => match requested_post(target.query_params) {
            None => GetAction::BadRequest,
            Some(id) => if target.resource == "posts".spec_bytes() {
                GetAction::CallPosts
            } else if target.resource == "comments".spec_bytes() {
                GetAction::CallComments(id as i64)
            } else if target.resource == "userreaction".spec_bytes() {
                GetAction::CallUserReaction(id as i64)
            } else {
                GetAction::UnknownEndpoint
            },
        },
        _ => if !exists {
            GetAction::NotFoundPage
        } else if !authenticated && target.resource != login_page() {
            GetAction::RedirectToLogin
        } else if authenticated && target.resource == login_page() {
            GetAction::RedirectToHome
        } else if target.image_type is Some {
            GetAction::ServeImage
        } else {
            GetAction::ServePage
        },
    }
}

/// No page without a session but the login page: a client without a
/// session is given the content of a page or an asset only if that is the
/// login page, and a client with a session is never sent to the login page
/// nor given it.
pub proof fn lemma_session_guards_pages(target: RouteView, exists: bool, authenticated: bool)
    requires
        target.class != RouteClass::ApiEndpoint,
    ensures
        !authenticated && (get_action(target, exists, authenticated) == GetAction::ServePage
            || get_action(target, exists, authenticated) == GetAction::ServeImage)
            ==> target.resource == login_page(),
        authenticated ==> get_action(target, exists, authenticated) != GetAction::RedirectToLogin,
        authenticated && target.resource == login_page() ==> get_action(
            target,
            exists,
            authenticated,
        ) == GetAction::NotFoundPage || get_action(target, exists, authenticated)
            == GetAction::RedirectToHome,
        !exists ==> get_action(target, exists, authenticated) == GetAction::NotFoundPage,
{
}

/// What the proofs need of the texts of the login page and of the
/// extensions of images.
proof fn lemma_login_texts()
    ensures
        "/login".spec_bytes() == seq![47u8, 108u8, 111u8, 103u8, 105u8, 110u8],
        ".html".spec_bytes() == seq![46u8, 104u8, 116u8, 109u8, 108u8],
        login_page() == seq![
            108u8,
            111u8,
            103u8,
            105u8,
            110u8,
            46u8,
            104u8,
            116u8,
            109u8,
            108u8,
        ],
        "api".spec_bytes().len() == 3,
        "png".spec_bytes().len() == 3,
        "jpg".spec_bytes().len() == 3,
        "gif".spec_bytes().len() == 3,
        "ico".spec_bytes().len() == 3,
        "jpeg".spec_bytes().len() == 4,
        "jpeg".spec_bytes()[0] == 106u8,
{
    reveal_strlit("/login");
    reveal_strlit(".html");
    reveal_strlit("login.html");
    reveal_strlit("api");
    reveal_strlit("png");
    reveal_strlit("jpg");
    reveal_strlit("gif");
    reveal_strlit("ico");
    reveal_strlit("jpeg");
    broadcast use is_ascii_spec_bytes;

    assert(is_ascii("/login"));
    assert(is_ascii(".html"));
    assert(is_ascii("login.html"));
    assert(is_ascii("api"));
    assert(is_ascii("png"));
    assert(is_ascii("jpg"));
    assert(is_ascii("gif"));
    assert(is_ascii("ico"));
    assert(is_ascii("jpeg"));
    assert("/login".spec_bytes() =~= seq![47u8, 108u8, 111u8, 103u8, 105u8, 110u8]);
    assert(".html".spec_bytes() =~= seq![46u8, 104u8, 116u8, 109u8, 108u8]);
    assert(login_page() =~= seq![
        108u8,
        111u8,
        103u8,
        105u8,
        110u8,
        46u8,
        104u8,
        116u8,
        109u8,
        108u8,
    ]);
}

/// The path `/login` resolves to the login page among the pages.
proof fn lemma_login_resolves()
    ensures
        resolve("/login".spec_bytes()) == (
            RouteClass::StaticPage,
            "pages".spec_bytes(),
            login_page(),
        ),
{
    lemma_login_texts();
    let path = "/login".spec_bytes();
    let name = seq![108u8, 111u8, 103u8, 105u8, 110u8];
    assert(relative(path) =~= name);
    lemma_split_without_sep(path, DOT);
    lemma_split_without_sep(name, SLASH);
    assert(segments(path) == seq![name]);
    assert(!segments(path).contains("api".spec_bytes()));
    assert(segments(path).last() == name);
    assert(name + ".html".spec_bytes() =~= login_page());
}

/// The login page has the extension `html`, which is not that of an
/// image.
proof fn lemma_login_page_is_no_image()
    ensures
        !is_image_extension(extension(login_page())),
{
    lemma_login_texts();
    let page = login_page();
    let html = seq![104u8, 116u8, 109u8, 108u8];
    lemma_occurs_at_byte(page, DOT, 5);
    assert forall|j: int| 0 <= j < 5 implies !occurs_at(page, seq![DOT], j) by {
        lemma_occurs_at_byte(page, DOT, j);
    }
    lemma_first_occurrence_is(page, seq![DOT], 5);
    assert(page.skip(6) =~= html);
    lemma_split_without_sep(html, DOT);
    assert(split_on(page, DOT) =~= seq![page.take(5)] + seq![html]);
    assert(extension(page) == html);
}

/// The path `/login` goes to the login page: a page among the pages,
/// without parameters, and no image.
pub proof fn lemma_login_route()
    ensures
        route_of("/login".spec_bytes()) == (RouteView {
            class: RouteClass::StaticPage,
            directory: "pages".spec_bytes(),
            resource: login_page(),
            query_params: Seq::empty(),
            image_type: None,
        }),
{
    lemma_login_texts();
    lemma_login_resolves();
    lemma_login_page_is_no_image();
    let target = "/login".spec_bytes();
    lemma_split_without_sep(target, QUESTION_MARK);
    assert(path_of(target) == target);
    assert(params_of(target) =~= Seq::<(Seq<u8>, Seq<u8>)>::empty());
}

/// A GET to `/login`. Where the login page exists, a client without a
/// session gets the page itself with the status 200, its placeholders
/// filled in, and no redirect; a client with a session is sent to `/` with
/// the status 301 and gets nothing of the page.
pub proof fn lemma_login_page_scenario(content: Seq<u8>, variables: Seq<(Seq<u8>, Seq<u8>)>)
    ensures
        get_action(route_of("/login".spec_bytes()), true, false) == GetAction::ServePage,
        settled(GetAction::ServePage) is None,
        file_read_by(GetAction::ServePage, route_of("/login".spec_bytes())) == Some(
            ("pages".spec_bytes(), login_page()),
        ),
        file_answer_of(
            GetAction::ServePage,
            route_of("/login".spec_bytes()),
            variables,
            content,
        ) == Some(page_view(filled(content, variables))),
        page_view(filled(content, variables)).code == 200,
        page_view(filled(content, variables)).headers.len() == 0,
        get_action(route_of("/login".spec_bytes()), true, true) == GetAction::RedirectToHome,
        settled(GetAction::RedirectToHome) == Some(redirect_view("/".spec_bytes())),
        redirect_view("/".spec_bytes()).code == 301,
        redirect_view("/".spec_bytes()).headers[0] == ("Location".spec_bytes(), "/".spec_bytes()),
{
    lemma_login_route();
}

/// The post that `params` ask for.
pub fn read_requested_post(params: &Vec<(Vec<u8>, Vec<u8>)>) -> (id: Option<i64>)
    ensures
        match id {
            Some(v) => requested_post(fields_view(params@)) == Some(v as int),
            None => requested_post(fields_view(params@)) is None,
        },
{
    match find_header(params, "post_id".as_bytes()) {
        Some(v) => parse_integer(v.as_slice()),
        None => Some(1),
    }
}

/// Decides what to do for a GET. `exists` says whether the file that the
/// target names is there, `authenticated` whether the session of the
/// client is known.
pub fn decide_get(target: &RouteTarget, exists: bool, authenticated: bool) -> (action: GetAction)
    ensures
        action == get_action(target@, exists, authenticated),
{
    match target.class {
        RouteClass::ApiEndpoint => {
            match read_requested_post(&target.query_params) {
                None => GetAction::BadRequest,
                Some(id) => {
                    if same_bytes(target.resource.as_slice(), "posts".as_bytes()) {
                        GetAction::CallPosts
                    } else if same_bytes(target.resource.as_slice(), "comments".as_bytes()) {
                        GetAction::CallComments(id)
                    } else if same_bytes(target.resource.as_slice(), "userreaction".as_bytes()) {
                        GetAction::CallUserReaction(id)
                    } else {
                        GetAction::UnknownEndpoint
                    }
                },
            }
        },
        _ => {
            let login: bool = same_bytes(target.resource.as_slice(), "login.html".as_bytes());
            if !exists {
                GetAction::NotFoundPage
            } else if !authenticated && !login {
                GetAction::RedirectToLogin
            } else if authenticated && login {
                GetAction::RedirectToHome
            } else if target.image_type.is_some() {
                GetAction::ServeImage
            } else {
                GetAction::ServePage
            }
        },
    }
}

/// The response that settles an action without any outside work, if the
/// action is of that kind.
pub open spec fn settled(action: GetAction) -> Option<ResponseView> {
    match action {
        GetAction::UnknownEndpoint => Some(endpoint_not_found_view()),
        GetAction::BadRequest => Some(bad_request_view()),
        GetAction::RedirectToLogin => Some(redirect_view("/login".spec_bytes())),
        GetAction::RedirectToHome => Some(redirect_view("/".spec_bytes())),
        _ => None,
    }
}

/// The response that settles `action` at once; `None` where a file has to
/// be read or the API called first.
pub fn settle(action: GetAction) -> (r: Option<Response>)
    ensures
        match r {
            Some(response) => settled(action) == Some(response@),
            None => settled(action) is None,
        },
{
    match action {
        GetAction::UnknownEndpoint => Some(endpoint_not_found()),
        GetAction::BadRequest => Some(bad_request()),
        GetAction::RedirectToLogin => Some(redirect("/login")),
        GetAction::RedirectToHome => Some(redirect("/")),
        _ => None,
    }
}

/// The answer to a GET for which a file was read, `content` being what
/// the file holds. A page goes out with its placeholders filled in, with
/// the status 200, or 404 if it is the not-found page; an image goes out
/// as it is, under its content type. `None` for an action that reads no
/// file.
pub open spec fn file_answer_of(
    action: GetAction,
    target: RouteView,
    variables: Seq<(Seq<u8>, Seq<u8>)>,
    content: Seq<u8>,
) -> Option<ResponseView> {
    match action {
        GetAction::ServePage => Some(page_view(filled(content, variables))),
        GetAction::NotFoundPage => Some(not_found_page_view(filled(content, variables))),
        GetAction::ServeImage => Some(
            typed_view(
                match target.image_type {
                    Some(t) => t,
                    None => Seq::empty(),
                },
                content,
            ),
        ),
        _ => None,
    }
}

/// The answer to a GET for which the file of `target` was read.
pub fn file_answer(
    action: GetAction,
    target: &RouteTarget,
    variables: &Vec<(Vec<u8>, Vec<u8>)>,
    content: Vec<u8>,
) -> (r: Option<Response>)
    ensures
        match r {
            Some(response) => file_answer_of(action, target@, fields_view(variables@), content@)
                == Some(response@),
            None => file_answer_of(action, target@, fields_view(variables@), content@) is None,
        },
{
    match action {
        GetAction::ServePage => Some(page(fill_template(content.as_slice(), variables))),
        GetAction::NotFoundPage => Some(
            not_found_page(fill_template(content.as_slice(), variables)),
        ),
        GetAction::ServeImage => {
            let image_type: Vec<u8> = match &target.image_type {
                Some(t) => copy_of(t),
                None => Vec::new(),
            };
            Some(typed(image_type, content))
        },
        _ => None,
    }
}

/// The endpoints that take a posted form.
#[derive(Clone, Copy, Debug, PartialEq, Eq, Structural)]
pub enum FormEndpoint {
    Login,
    Logout,
    Comment,
    Reaction,
}

/// The endpoint that a path names: `/api/login`, `/api/logout`,
/// `/api/comment` and `/api/reaction` name one each, any other path none.
pub open spec fn form_endpoint_of(path: Seq<u8>) -> Option<FormEndpoint> {
    if path == "/api/login".spec_bytes() {
        Some(FormEndpoint::Login)
    } else if path == "/api/logout".spec_bytes() {
        Some(FormEndpoint::Logout)
    } else if path == "/api/comment".spec_bytes() {
        Some(FormEndpoint::Comment)
    } else if path == "/api/reaction".spec_bytes() {
        Some(FormEndpoint::Reaction)
    } else {
        None
    }
}

/// The endpoint that takes a form posted to `path`; `None` where there is
/// none, which is answered with 404.
pub fn form_endpoint(path: &[u8]) -> (e: Option<FormEndpoint>)
    ensures
        e == form_endpoint_of(path@),
{
    if same_bytes(path, "/api/login".as_bytes()) {
        Some(FormEndpoint::Login)
    } else if same_bytes(path, "/api/logout".as_bytes()) {
        Some(FormEndpoint::Logout)
    } else if same_bytes(path, "/api/comment".as_bytes()) {
        Some(FormEndpoint::Comment)
    } else if same_bytes(path, "/api/reaction".as_bytes()) {
        Some(FormEndpoint::Reaction)
    } else {
        None
    }
}

/// The answer to a form that is turned down.
pub fn refuse(why: Refusal) -> (r: Response)
    ensures
        r@ == (match why {
            Refusal::Unauthorized => unauthorized_view(),
            Refusal::BadRequest => bad_request_view(),
        }),
{
    match why {
        Refusal::Unauthorized => unauthorized(),
        Refusal::BadRequest => bad_request(),
    }
}

/// The answer to a message that is no request: the status 400 without a
/// body, for an empty message as for a malformed first line.
pub fn reject(error: ParseError) -> (r: Response)
    ensures
        r@ == malformed_request_view(),
{
    malformed_request()
}

/// The answer that settles a plan without any handling, if the plan is of
/// that kind: a method that is neither GET nor POST is answered with 405.
pub open spec fn plan_settled(p: Plan) -> Option<ResponseView> {
    match p {
        Plan::NotAllowed => Some(method_not_allowed_view()),
        _ => None,
    }
}

/// The answer that settles `p` at once; `None` where the request is to be
/// handled.
pub fn settle_plan(p: Plan) -> (r: Option<Response>)
    ensures
        match r {
            Some(response) => plan_settled(p) == Some(response@),
            None => plan_settled(p) is None,
        },
{
    match p {
        Plan::NotAllowed => Some(method_not_allowed()),
        _ => None,
    }
}

/// The answer that settles a posted form without the store, if there is
/// one: a path that names no endpoint is answered with 404, and a logout
/// with the answer that takes the cookie away.
pub open spec fn form_settled(endpoint: Option<FormEndpoint>) -> Option<ResponseView> {
    match endpoint {
        None => Some(not_found_view()),
        Some(FormEndpoint::Logout) => Some(session_ended_view()),
        _ => None,
    }
}

/// The answer that settles a form for `endpoint` at once; `None` where the
/// store has to be asked.
pub fn settle_form(endpoint: Option<FormEndpoint>) -> (r: Option<Response>)
    ensures
        match r {
            Some(response) => form_settled(endpoint) == Some(response@),
            None => form_settled(endpoint) is None,
        },
{
    match endpoint {
        None => Some(not_found()),
        Some(FormEndpoint::Logout) => Some(session_ended()),
        _ => None,
    }
}

/// Whether the dispatcher has to know if the file of `target` exists: it
/// has for a page or an asset, and not for a call of the API.
pub fn needs_file(target: &RouteTarget) -> (b: bool)
    ensures
        b == (target.class != RouteClass::ApiEndpoint),
{
    match target.class {
        RouteClass::ApiEndpoint => false,
        _ => true,
    }
}

/// The directory and the name of the file that an action reads: the file
/// of the target for a page or an image, the page `404.html` in `pages`
/// for a file that does not exist, and none for any other action.
pub open spec fn file_read_by(action: GetAction, target: RouteView) -> Option<(Seq<u8>, Seq<u8>)> {
    match action {
        GetAction::ServePage => Some((target.directory, target.resource)),
        GetAction::ServeImage => Some((target.directory, target.resource)),
        GetAction::NotFoundPage => Some(("pages".spec_bytes(), "404.html".spec_bytes())),
        _ => None,
    }
}

/// The directory and the name of the file that `action` reads.
pub fn file_to_read(action: GetAction, target: &RouteTarget) -> (r: Option<(Vec<u8>, Vec<u8>)>)
    ensures
        match r {
            Some((directory, name)) => file_read_by(action, target@) == Some(
                (directory@, name@),
            ),
            None => file_read_by(action, target@) is None,
        },
{
    match action {
        GetAction::ServePage => Some((copy_of(&target.directory), copy_of(&target.resource))),
        GetAction::ServeImage => Some((copy_of(&target.directory), copy_of(&target.resource))),
        GetAction::NotFoundPage => Some((bytes_of("pages"), bytes_of("404.html"))),
        _ => None,
    }
}

} // verus!
