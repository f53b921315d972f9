use bare_http::framer::{
    find_head, frame_message, frame_pieces, FrameError, FrameStatus, Framer, RawMessage,
};

const GET: &[u8] = b"GET / HTTP/1.1\r\nHost: example\r\n\r\n";

fn post(body: &[u8]) -> Vec<u8> {
    let mut m = format!("POST /api/comment HTTP/1.1\r\nContent-Length: {}\r\n\r\n", body.len())
        .into_bytes();
    m.extend_from_slice(body);
    m
}

fn feed_in_pieces(stream: &[u8], size: usize) -> Result<RawMessage, FrameError> {
    let mut framer = Framer::new();
    for chunk in stream.chunks(size) {
        framer.push(chunk);
    }
    framer.finish()
}

#[test]
fn request_without_body_ends_at_the_empty_line() {
    let m = frame_message(GET).unwrap();
    assert_eq!(m.bytes, GET.to_vec());
    assert_eq!(m.head_len, GET.len());
    assert_eq!(m.consumed(), GET.len());
}

#[test]
fn body_has_the_declared_length() {
    let body = b"content=hello&post_id=3";
    let stream = post(body);
    let m = frame_message(&stream).unwrap();
    assert_eq!(m.bytes.len() - m.head_len, body.len());
    assert_eq!(&m.bytes[m.head_len..], body);
}

#[test]
fn body_length_does_not_depend_on_the_pieces() {
    let body: Vec<u8> = (0u8..=255).collect();
    let stream = post(&body);
    let whole = frame_message(&stream).unwrap();
    for size in [1usize, 2, 3, 7, 16, 64, 1000] {
        let m = feed_in_pieces(&stream, size).unwrap();
        assert_eq!(m, whole);
        assert_eq!(m.bytes.len() - m.head_len, 256);
    }
}

#[test]
fn body_may_hold_line_breaks_and_zero_bytes() {
    let body = b"\r\n\r\n\0\0--x\r\n";
    let stream = post(body);
    let m = frame_message(&stream).unwrap();
    assert_eq!(&m.bytes[m.head_len..], body);
}

#[test]
fn bytes_behind_the_request_are_left_alone() {
    let mut stream = post(b"abc");
    let len = stream.len();
    stream.extend_from_slice(b"GET /next HTTP/1.1\r\n\r\n");
    let m = frame_message(&stream).unwrap();
    assert_eq!(m.consumed(), len);
    assert_eq!(m.bytes, stream[..len].to_vec());
}

#[test]
fn stream_that_ends_in_the_head_is_truncated() {
    assert_eq!(frame_message(b"GET / HTTP/1.1\r\nHost: x\r\n"), Err(FrameError::TruncatedRequest));
    assert_eq!(frame_message(b"GET / HTTP/1.1"), Err(FrameError::TruncatedRequest));
    assert_eq!(frame_message(b""), Err(FrameError::TruncatedRequest));
}

#[test]
fn stream_that_ends_in_the_body_is_truncated() {
    let stream = post(b"0123456789");
    let cut = &stream[..stream.len() - 1];
    assert_eq!(frame_message(cut), Err(FrameError::TruncatedRequest));
    assert_eq!(feed_in_pieces(cut, 4), Err(FrameError::TruncatedRequest));
}

#[test]
fn framer_reports_when_the_request_is_complete() {
    let stream = post(b"abcdef");
    let mut framer = Framer::new();
    let head_end = stream.len() - 6;
    assert_eq!(framer.push(&stream[..10]), FrameStatus::NeedMore);
    assert_eq!(framer.push(&stream[10..head_end]), FrameStatus::NeedMore);
    assert_eq!(framer.push(&stream[head_end..head_end + 5]), FrameStatus::NeedMore);
    assert_eq!(framer.push(&stream[head_end + 5..]), FrameStatus::Complete);
    assert_eq!(framer.finish().unwrap().bytes, stream);
}

#[test]
fn framer_without_bytes_is_truncated() {
    assert_eq!(Framer::new().finish(), Err(FrameError::TruncatedRequest));
}

#[test]
fn content_length_is_found_in_any_case() {
    assert_eq!(find_head(b"POST / HTTP/1.1\r\ncontent-length: 5\r\n\r\n"), Some((38, 5)));
    assert_eq!(find_head(b"POST / HTTP/1.1\r\nCONTENT-LENGTH: 5\r\n\r\n"), Some((38, 5)));
    assert_eq!(find_head(b"POST / HTTP/1.1\r\nContent-Length:5\r\n\r\n"), Some((37, 5)));
}

#[test]
fn missing_or_unreadable_content_length_is_zero() {
    assert_eq!(find_head(b"GET / HTTP/1.1\r\n\r\n"), Some((18, 0)));
    assert_eq!(find_head(b"GET / HTTP/1.1\r\nContent-Length: many\r\n\r\n"), Some((40, 0)));
    assert_eq!(find_head(b"GET / HTTP/1.1\r\nContent-Length:\r\n\r\n"), Some((35, 0)));
    assert_eq!(find_head(b"GET / HTTP/1.1\r\nContent-Length: -3\r\n\r\n"), Some((38, 0)));
}

#[test]
fn last_content_length_decides() {
    assert_eq!(
        find_head(b"POST / HTTP/1.1\r\nContent-Length: 5\r\nContent-Length: 9\r\n\r\n"),
        Some((57, 9))
    );
}

#[test]
fn first_word_of_the_value_is_the_length() {
    assert_eq!(find_head(b"POST / HTTP/1.1\r\nContent-Length: 12 bytes\r\n\r\n"), Some((45, 12)));
}

#[test]
fn head_ends_only_at_a_line_of_carriage_return_and_line_feed() {
    assert_eq!(find_head(b"GET / HTTP/1.1\n\n"), None);
    assert_eq!(find_head(b"GET / HTTP/1.1\n\r\n"), Some((17, 0)));
    assert_eq!(find_head(b"\r\n"), Some((2, 0)));
}

#[test]
fn framing_in_pieces_gives_the_request_of_the_whole() {
    let body: Vec<u8> = (0u8..=255).rev().collect();
    let mut stream = post(&body);
    stream.extend_from_slice(b"rest of the stream");
    let whole = frame_message(&stream).unwrap();
    for size in [1usize, 2, 5, 13, 100, 4096] {
        let pieces: Vec<Vec<u8>> = stream.chunks(size).map(|c| c.to_vec()).collect();
        let framed = frame_pieces(&pieces).unwrap();
        assert_eq!(framed, whole);
        assert_eq!(&framed.bytes[framed.head_len..], &body[..]);
        assert_eq!(framed.bytes.len() - framed.head_len, 256);
    }
    let with_empty = vec![vec![], stream[..7].to_vec(), vec![], stream[7..].to_vec(), vec![]];
    assert_eq!(frame_pieces(&with_empty).unwrap(), whole);
}

#[test]
fn framing_no_pieces_or_too_few_is_truncated() {
    assert_eq!(frame_pieces(&vec![]), Err(FrameError::TruncatedRequest));
    let stream = post(b"0123456789");
    let pieces: Vec<Vec<u8>> = stream[..stream.len() - 1].chunks(3).map(|c| c.to_vec()).collect();
    assert_eq!(frame_pieces(&pieces), Err(FrameError::TruncatedRequest));
}

#[test]
fn content_length_with_white_space_around_name_and_value_counts() {
    assert_eq!(find_head(b"POST / HTTP/1.1\r\n  Content-Length  :   7  \r\n\r\n"), Some((46, 7)));
    assert_eq!(find_head(b"POST / HTTP/1.1\r\nContent-Length: 7\n\r\n"), Some((37, 7)));
}
