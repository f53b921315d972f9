use bare_http::dispatch::{
    decide_get, file_answer, file_to_read, form_endpoint, needs_file, plan, read_requested_post,
    refuse, reject, settle, settle_form, settle_plan, FormEndpoint, GetAction, Plan,
};
use bare_http::feedback::Refusal;
use bare_http::request::{parse_http_request, ParseError};
use bare_http::router::route;

fn location(r: &bare_http::response::Response) -> Option<Vec<u8>> {
    r.headers.iter().find(|(n, _)| n == b"Location").map(|(_, v)| v.clone())
}

#[test]
fn login_page_is_served_to_a_client_without_a_session() {
    let target = route(b"/login");
    assert_eq!(target.resource, b"login.html".to_vec());
    let action = decide_get(&target, true, false);
    assert_eq!(action, GetAction::ServePage);
    assert!(settle(action).is_none());
}

#[test]
fn login_page_sends_a_client_with_a_session_home() {
    let action = decide_get(&route(b"/login"), true, true);
    assert_eq!(action, GetAction::RedirectToHome);
    let response = settle(action).unwrap();
    assert_eq!(response.code, 301);
    assert_eq!(location(&response), Some(b"/".to_vec()));
    assert_eq!(
        response.to_bytes(),
        b"HTTP/1.1 301 MOVED PERMANENTLY\r\nLocation: /\r\nContent-Length: 0\r\n\r\n301 Moved Permanently"
            .to_vec()
    );
}

#[test]
fn other_pages_send_a_client_without_a_session_to_the_login_page() {
    for path in [&b"/"[..], b"/about", b"/css/style.css"] {
        let action = decide_get(&route(path), true, false);
        assert_eq!(action, GetAction::RedirectToLogin);
        let response = settle(action).unwrap();
        assert_eq!(response.code, 301);
        assert_eq!(location(&response), Some(b"/login".to_vec()));
    }
}

#[test]
fn pages_are_served_to_a_client_with_a_session() {
    assert_eq!(decide_get(&route(b"/"), true, true), GetAction::ServePage);
    assert_eq!(decide_get(&route(b"/about"), true, true), GetAction::ServePage);
    assert_eq!(decide_get(&route(b"/css/style.css"), true, true), GetAction::ServePage);
    assert_eq!(decide_get(&route(b"/photo.png"), true, true), GetAction::ServeImage);
}

#[test]
fn missing_file_is_not_found_whoever_asks() {
    for authenticated in [false, true] {
        assert_eq!(decide_get(&route(b"/nowhere"), false, authenticated), GetAction::NotFoundPage);
        assert_eq!(decide_get(&route(b"/login"), false, authenticated), GetAction::NotFoundPage);
        assert_eq!(decide_get(&route(b"/a.png"), false, authenticated), GetAction::NotFoundPage);
    }
    assert!(settle(GetAction::NotFoundPage).is_none());
}

#[test]
fn api_calls_go_to_the_named_endpoint() {
    assert_eq!(decide_get(&route(b"/api/posts"), false, false), GetAction::CallPosts);
    assert_eq!(
        decide_get(&route(b"/api/comments?post_id=12"), false, false),
        GetAction::CallComments(12)
    );
    assert_eq!(
        decide_get(&route(b"/api/userreaction?post_id=-3"), true, true),
        GetAction::CallUserReaction(-3)
    );
}

#[test]
fn api_call_without_a_post_asks_for_the_first() {
    assert_eq!(decide_get(&route(b"/api/comments"), false, false), GetAction::CallComments(1));
    assert_eq!(read_requested_post(&vec![]), Some(1));
}

#[test]
fn api_call_for_a_post_that_is_no_number_is_a_bad_request() {
    let action = decide_get(&route(b"/api/comments?post_id=seven"), false, false);
    assert_eq!(action, GetAction::BadRequest);
    assert_eq!(settle(action).unwrap().code, 400);
}

#[test]
fn unknown_endpoint_is_not_found() {
    let action = decide_get(&route(b"/api/nothing"), true, true);
    assert_eq!(action, GetAction::UnknownEndpoint);
    assert_eq!(
        settle(action).unwrap().to_bytes(),
        b"HTTP/1.1 404 NOT FOUND\r\nContent-Length: 0\r\n\r\n".to_vec()
    );
    let nope = decide_get(&route(b"/api/nope"), false, false);
    assert_eq!(
        settle(nope).unwrap().to_bytes(),
        b"HTTP/1.1 404 NOT FOUND\r\nContent-Length: 0\r\n\r\n".to_vec()
    );
}

#[test]
fn plan_follows_the_method() {
    let get = parse_http_request(b"GET / HTTP/1.1\r\n\r\n").unwrap();
    assert_eq!(plan(&get), Plan::Get);
    let post = parse_http_request(b"POST /api/login HTTP/1.1\r\n\r\n").unwrap();
    assert_eq!(plan(&post), Plan::Post);
    let put = parse_http_request(b"PUT /x HTTP/1.1\r\n\r\n").unwrap();
    assert_eq!(plan(&put), Plan::NotAllowed);
}

#[test]
fn plan_sends_a_multipart_post_to_the_upload() {
    let upload = parse_http_request(
        b"POST /api/upload HTTP/1.1\r\nContent-Type: multipart/form-data; boundary=b\r\n\r\n",
    )
    .unwrap();
    assert_eq!(plan(&upload), Plan::Upload);
    let plain = parse_http_request(b"POST /api/upload HTTP/1.1\r\n\r\n").unwrap();
    assert_eq!(plan(&plain), Plan::Post);
    let elsewhere = parse_http_request(
        b"POST /api/comment HTTP/1.1\r\nContent-Type: multipart/form-data; boundary=b\r\n\r\n",
    )
    .unwrap();
    assert_eq!(plan(&elsewhere), Plan::Post);
    let get = parse_http_request(
        b"GET /api/upload HTTP/1.1\r\nContent-Type: multipart/form-data; boundary=b\r\n\r\n",
    )
    .unwrap();
    assert_eq!(plan(&get), Plan::Get);
}

#[test]
fn form_endpoints_are_named_by_their_paths() {
    assert_eq!(form_endpoint(b"/api/login"), Some(FormEndpoint::Login));
    assert_eq!(form_endpoint(b"/api/logout"), Some(FormEndpoint::Logout));
    assert_eq!(form_endpoint(b"/api/comment"), Some(FormEndpoint::Comment));
    assert_eq!(form_endpoint(b"/api/reaction"), Some(FormEndpoint::Reaction));
    assert_eq!(form_endpoint(b"/api/other"), None);
    assert_eq!(form_endpoint(b"/api/login/"), None);
}

#[test]
fn refusals_and_parse_errors_have_their_status() {
    assert_eq!(refuse(Refusal::Unauthorized).code, 401);
    assert_eq!(refuse(Refusal::BadRequest).code, 400);
    assert_eq!(reject(ParseError::EmptyRequest).to_bytes(), b"HTTP/1.1 400 BAD REQUEST\r\n\r\n".to_vec());
    assert_eq!(
        reject(ParseError::MalformedStartLine).to_bytes(),
        b"HTTP/1.1 400 BAD REQUEST\r\n\r\n".to_vec()
    );
}

#[test]
fn pages_go_out_with_their_placeholders_filled_in() {
    let vars = vec![(b"email".to_vec(), b"a@b.c".to_vec())];
    let target = route(b"/about");
    let r = file_answer(GetAction::ServePage, &target, &vars, b"<b>&{email}</b>".to_vec()).unwrap();
    assert_eq!(r.to_bytes(), b"HTTP/1.1 200 OK\r\n\r\n<b>a@b.c</b>".to_vec());
    let gone =
        file_answer(GetAction::NotFoundPage, &target, &vars, b"no &{email}".to_vec()).unwrap();
    assert_eq!(gone.to_bytes(), b"HTTP/1.1 404 NOT FOUND\r\n\r\nno a@b.c".to_vec());
}

#[test]
fn images_go_out_as_they_are() {
    let vars = vec![(b"email".to_vec(), b"a@b.c".to_vec())];
    let target = route(b"/photo.png");
    let r = file_answer(GetAction::ServeImage, &target, &vars, b"\x00&{email}\xff".to_vec()).unwrap();
    assert_eq!(
        r.to_bytes(),
        b"HTTP/1.1 200 OK\r\nContent-Type: image/png\r\n\r\n\x00&{email}\xff".to_vec()
    );
}

#[test]
fn actions_that_read_no_file_have_no_file_answer() {
    let target = route(b"/api/posts");
    assert!(file_answer(GetAction::CallPosts, &target, &vec![], vec![]).is_none());
    assert!(file_answer(GetAction::RedirectToLogin, &target, &vec![], vec![]).is_none());
}

#[test]
fn other_methods_are_answered_with_the_status_line_alone() {
    let delete = bare_http::framer::frame_message(b"DELETE /x HTTP/1.1\r\n\r\n").unwrap();
    let request = parse_http_request(&delete.bytes).unwrap();
    let planned = plan(&request);
    assert_eq!(planned, Plan::NotAllowed);
    assert_eq!(
        settle_plan(planned).unwrap().to_bytes(),
        b"HTTP/1.1 405 METHOD NOT ALLOWED\r\n\r\n".to_vec()
    );
    assert!(settle_plan(Plan::Get).is_none());
    assert!(settle_plan(Plan::Post).is_none());
    assert!(settle_plan(Plan::Upload).is_none());
}

#[test]
fn forms_without_an_endpoint_and_logouts_are_settled_at_once() {
    assert_eq!(
        settle_form(form_endpoint(b"/api/other")).unwrap().to_bytes(),
        b"HTTP/1.1 404 NOT FOUND\r\n\r\n404 Not Found".to_vec()
    );
    assert_eq!(
        settle_form(Some(FormEndpoint::Logout)).unwrap().to_bytes(),
        bare_http::response::post_logout().into_bytes()
    );
    assert!(settle_form(Some(FormEndpoint::Login)).is_none());
    assert!(settle_form(Some(FormEndpoint::Comment)).is_none());
    assert!(settle_form(Some(FormEndpoint::Reaction)).is_none());
}

#[test]
fn only_pages_and_assets_need_a_file() {
    assert!(needs_file(&route(b"/about")));
    assert!(needs_file(&route(b"/css/style.css")));
    assert!(needs_file(&route(b"/photo.png")));
    assert!(!needs_file(&route(b"/api/posts")));
}

#[test]
fn the_file_to_read_is_that_of_the_target_or_the_not_found_page() {
    let target = route(b"/css/style.css");
    assert_eq!(
        file_to_read(GetAction::ServePage, &target),
        Some((b"css".to_vec(), b"style.css".to_vec()))
    );
    assert_eq!(
        file_to_read(GetAction::ServeImage, &route(b"/a/b.png")),
        Some((b"images".to_vec(), b"b.png".to_vec()))
    );
    assert_eq!(
        file_to_read(GetAction::NotFoundPage, &target),
        Some((b"pages".to_vec(), b"404.html".to_vec()))
    );
    assert_eq!(file_to_read(GetAction::CallPosts, &target), None);
    assert_eq!(file_to_read(GetAction::RedirectToLogin, &target), None);
}

#[test]
fn login_page_without_a_session_goes_out_with_200() {
    let target = route(b"/login");
    let action = decide_get(&target, true, false);
    assert_eq!(file_to_read(action, &target), Some((b"pages".to_vec(), b"login.html".to_vec())));
    let answer = file_answer(action, &target, &vec![], b"<form>&{email}</form>".to_vec()).unwrap();
    assert_eq!(answer.to_bytes(), b"HTTP/1.1 200 OK\r\n\r\n<form>&{email}</form>".to_vec());
    assert!(location(&answer).is_none());
}
