use bare_http::response::{
    bad_request, board_not_found, comment_stored, endpoint_not_found, malformed_request,
    method_not_allowed, not_found, not_found_page, page, post_logout, reaction_stored, redirect,
    session_ended, session_started, typed, unauthorized, upload_stored, upload_unauthorized,
    Response,
};

#[test]
fn response_is_status_line_headers_empty_line_body() {
    let r = Response::new(200, "OK")
        .header("Content-Type", b"text/html".to_vec())
        .header("Content-Length", b"2".to_vec())
        .with_body(b"hi".to_vec());
    assert_eq!(
        r.to_bytes(),
        b"HTTP/1.1 200 OK\r\nContent-Type: text/html\r\nContent-Length: 2\r\n\r\nhi".to_vec()
    );
}

#[test]
fn response_without_headers_has_the_empty_line() {
    assert_eq!(Response::new(204, "No Content").to_bytes(), b"HTTP/1.1 204 No Content\r\n\r\n".to_vec());
}

#[test]
fn logout_takes_the_cookie_away() {
    assert_eq!(
        post_logout(),
        "HTTP/1.1 301 OK\r\nSet-Cookie: token=; Max-Age=0; Path=/\r\nLocation: /\r\nContent-Length: 0\r\n\r\n"
    );
    assert_eq!(session_ended().to_bytes(), post_logout().into_bytes());
}

#[test]
fn login_sets_the_cookie() {
    assert_eq!(
        session_started(b"abc").to_bytes(),
        b"HTTP/1.1 301 Moved Permanently\r\nSet-Cookie: token=abc; Path=/\r\nLocation: /\r\nContent-Length: 0\r\n\r\n"
            .to_vec()
    );
}

#[test]
fn failures_carry_a_short_body() {
    assert_eq!(bad_request().to_bytes(), b"HTTP/1.1 400 BAD REQUEST\r\n\r\n400 Bad Request".to_vec());
    assert_eq!(unauthorized().to_bytes(), b"HTTP/1.1 401 UNAUTHORIZED\r\n\r\n401 Unauthorized".to_vec());
    assert_eq!(not_found().to_bytes(), b"HTTP/1.1 404 NOT FOUND\r\n\r\n404 Not Found".to_vec());
    assert_eq!(
        upload_unauthorized().to_bytes(),
        b"HTTP/1.1 401 UNAUTHORIZED\r\n\r\n401 UNAUTHORIZED".to_vec()
    );
}

#[test]
fn some_failures_are_the_status_line_alone() {
    assert_eq!(method_not_allowed().to_bytes(), b"HTTP/1.1 405 METHOD NOT ALLOWED\r\n\r\n".to_vec());
    assert_eq!(malformed_request().to_bytes(), b"HTTP/1.1 400 BAD REQUEST\r\n\r\n".to_vec());
    assert_eq!(board_not_found().to_bytes(), b"HTTP/1.1 404 NOT FOUND\r\n\r\n".to_vec());
    assert_eq!(
        endpoint_not_found().to_bytes(),
        b"HTTP/1.1 404 NOT FOUND\r\nContent-Length: 0\r\n\r\n".to_vec()
    );
}

#[test]
fn stored_comments_and_uploads_send_the_client_home() {
    assert_eq!(
        comment_stored().to_bytes(),
        b"HTTP/1.1 301 Moved Permanently\r\nLocation: /\r\nContent-Length: 0\r\n\r\n".to_vec()
    );
    assert_eq!(
        upload_stored().to_bytes(),
        b"HTTP/1.1 301 MOVED PERMANENTLY\r\nLocation: /\r\n\r\n".to_vec()
    );
}

#[test]
fn redirect_names_the_place() {
    assert_eq!(
        redirect("/login").to_bytes(),
        b"HTTP/1.1 301 MOVED PERMANENTLY\r\nLocation: /login\r\nContent-Length: 0\r\n\r\n301 Moved Permanently"
            .to_vec()
    );
}

#[test]
fn pages_and_typed_content_are_sent_with_200() {
    assert_eq!(page(b"<p>x</p>".to_vec()).to_bytes(), b"HTTP/1.1 200 OK\r\n\r\n<p>x</p>".to_vec());
    assert_eq!(
        typed(b"image/png".to_vec(), vec![0, 255]).to_bytes(),
        b"HTTP/1.1 200 OK\r\nContent-Type: image/png\r\n\r\n\x00\xff".to_vec()
    );
    assert_eq!(
        not_found_page(b"gone".to_vec()).to_bytes(),
        b"HTTP/1.1 404 NOT FOUND\r\n\r\ngone".to_vec()
    );
    assert_eq!(
        reaction_stored().to_bytes(),
        b"HTTP/1.1 200 OK\r\n\r\n {\"status\": \"ok\"}".to_vec()
    );
}
