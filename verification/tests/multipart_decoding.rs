use bare_http::multipart::binary::{
    extract_images, find_binary, make_delimiter, scan_parts, split_part, MultipartError,
};
use bare_http::multipart::{decode_multipart, read_part, read_quoted, MultipartPart};

fn text_part(name: &str, value: &[u8]) -> Vec<u8> {
    let mut p = format!("Content-Disposition: form-data; name=\"{}\"\r\n\r\n", name).into_bytes();
    p.extend_from_slice(value);
    p.extend_from_slice(b"\r\n");
    p
}

fn file_part(name: &str, file_name: &str, kind: &str, payload: &[u8]) -> Vec<u8> {
    let mut p = format!(
        "Content-Disposition: form-data; name=\"{}\"; filename=\"{}\"\r\nContent-Type: image/{}\r\n\r\n",
        name, file_name, kind
    )
    .into_bytes();
    p.extend_from_slice(payload);
    p.extend_from_slice(b"\r\n");
    p
}

fn form(token: &str, parts: &[Vec<u8>]) -> Vec<u8> {
    let mut b = Vec::new();
    for p in parts {
        b.extend_from_slice(format!("--{}\r\n", token).as_bytes());
        b.extend_from_slice(p);
    }
    b.extend_from_slice(format!("--{}--\r\n", token).as_bytes());
    b
}

fn text(name: &str, value: &[u8]) -> MultipartPart {
    MultipartPart {
        field_name: name.as_bytes().to_vec(),
        file_name: None,
        is_binary: false,
        text_value: Some(value.to_vec()),
        binary_value: None,
    }
}

fn file(name: &str, file_name: &str, payload: &[u8]) -> MultipartPart {
    MultipartPart {
        field_name: name.as_bytes().to_vec(),
        file_name: Some(file_name.as_bytes().to_vec()),
        is_binary: true,
        text_value: None,
        binary_value: Some(payload.to_vec()),
    }
}

#[test]
fn text_fields_come_back_in_order() {
    let body = form("XyZ", &[text_part("title", b"Hello"), text_part("content", b"two\r\nlines")]);
    assert_eq!(
        decode_multipart(&body, b"XyZ"),
        Ok(vec![text("title", b"Hello"), text("content", b"two\r\nlines")])
    );
}

#[test]
fn file_payload_comes_back_byte_for_byte() {
    let payload: Vec<u8> = (0u8..=255).rev().collect();
    let body = form(
        "----Form7MA4YWxk",
        &[text_part("title", b"Hello"), file_part("image", "cat.png", "png", &payload)],
    );
    let parts = decode_multipart(&body, b"----Form7MA4YWxk").unwrap();
    assert_eq!(parts, vec![text("title", b"Hello"), file("image", "cat.png", &payload)]);
}

#[test]
fn payload_may_hold_pieces_of_the_boundary_and_zero_bytes() {
    let mut payload = b"\0\0--Bou\r\n--Boundar\0--\r\n\r\nBoundary".to_vec();
    payload.extend_from_slice(&[0xff, 0xfe, 0x00, 0x0d, 0x0a, 0x2d, 0x2d]);
    let body = form("Boundary", &[file_part("image", "a.gif", "gif", &payload)]);
    let parts = decode_multipart(&body, b"Boundary").unwrap();
    assert_eq!(parts.len(), 1);
    assert_eq!(parts[0].binary_value, Some(payload));
    assert!(parts[0].is_binary);
    assert_eq!(parts[0].text_value, None);
}

#[test]
fn decoding_twice_gives_the_same() {
    let payload = [1u8, 2, 3, 0, 255];
    let body = form("b", &[text_part("title", b"t"), file_part("image", "x.jpg", "jpeg", &payload)]);
    let first = decode_multipart(&body, b"b");
    let second = decode_multipart(&body, b"b");
    assert_eq!(first, second);
    assert!(first.is_ok());
}

#[test]
fn body_without_the_boundary_is_malformed() {
    assert_eq!(decode_multipart(b"no parts here", b"XyZ"), Err(MultipartError::MalformedMultipart));
    assert_eq!(decode_multipart(b"", b"XyZ"), Err(MultipartError::MalformedMultipart));
    let body = form("other", &[text_part("title", b"Hello")]);
    assert_eq!(decode_multipart(&body, b"XyZ"), Err(MultipartError::MalformedMultipart));
}

#[test]
fn closing_boundary_alone_gives_no_part() {
    assert_eq!(decode_multipart(b"--XyZ--\r\n", b"XyZ"), Ok(vec![]));
    assert_eq!(decode_multipart(b"--XyZ", b"XyZ"), Ok(vec![]));
}

#[test]
fn part_without_content_disposition_is_skipped() {
    let broken = b"Content-Type: text/plain\r\n\r\nlost\r\n".to_vec();
    let body = form("XyZ", &[text_part("title", b"a"), broken, text_part("content", b"b")]);
    assert_eq!(decode_multipart(&body, b"XyZ"), Ok(vec![text("title", b"a"), text("content", b"b")]));
}

#[test]
fn part_without_a_blank_line_is_skipped() {
    let broken = b"Content-Disposition: form-data; name=\"x\"\r\n".to_vec();
    let body = form("XyZ", &[broken, text_part("content", b"b")]);
    assert_eq!(decode_multipart(&body, b"XyZ"), Ok(vec![text("content", b"b")]));
}

#[test]
fn part_without_a_quoted_name_is_skipped() {
    let broken = b"Content-Disposition: form-data; name=x\r\n\r\nv\r\n".to_vec();
    let body = form("XyZ", &[broken, text_part("content", b"b")]);
    assert_eq!(decode_multipart(&body, b"XyZ"), Ok(vec![text("content", b"b")]));
}

#[test]
fn empty_value_is_an_empty_text() {
    let body = form("XyZ", &[text_part("title", b"")]);
    assert_eq!(decode_multipart(&body, b"XyZ"), Ok(vec![text("title", b"")]));
}

#[test]
fn text_part_may_carry_a_file_name() {
    let raw = b"Content-Disposition: form-data; name=\"doc\"; filename=\"a.txt\"\r\n\r\nhi\r\n";
    let part = read_part(raw).unwrap();
    assert_eq!(part.file_name, Some(b"a.txt".to_vec()));
    assert_eq!(part.text_value, Some(b"hi".to_vec()));
    assert!(!part.is_binary);
}

#[test]
fn read_quoted_takes_what_stands_between_the_quotes() {
    let d = b"form-data; name=\"image\"; filename=\"my cat.png\"";
    assert_eq!(read_quoted(d, b" name=\""), Some(b"image".to_vec()));
    assert_eq!(read_quoted(d, b"filename=\""), Some(b"my cat.png".to_vec()));
    assert_eq!(read_quoted(b"form-data; name=\"open", b" name=\""), None);
    assert_eq!(read_quoted(b"form-data", b" name=\""), None);
}

#[test]
fn make_delimiter_puts_two_hyphens_in_front() {
    assert_eq!(make_delimiter(b"XyZ"), b"--XyZ".to_vec());
    assert_eq!(make_delimiter(b""), b"--".to_vec());
}

#[test]
fn scan_parts_gives_the_ranges_between_delimiters() {
    let body = b"--b\r\nAAAA\r\n--b\r\nBB\r\n--b--\r\n";
    assert_eq!(scan_parts(body, b"--b"), Some(vec![(5, 11), (16, 20)]));
    assert_eq!(scan_parts(body, b"--c"), None);
    assert_eq!(scan_parts(b"--b", b"--b"), Some(vec![]));
}

#[test]
fn split_part_cuts_at_the_first_blank_line() {
    let (headers, content) = split_part(b"H: 1\r\n\r\nbody\r\n\r\nmore\r\n").unwrap();
    assert_eq!(headers, b"H: 1");
    assert_eq!(content, b"body\r\n\r\nmore");
    assert_eq!(split_part(b"no blank line\r\n"), None);
    let (h, c) = split_part(b"H\r\n\r\n").unwrap();
    assert_eq!(h, b"H");
    assert_eq!(c, b"");
}

#[test]
fn find_binary_takes_the_token_and_cuts_the_image_out_of_the_request() {
    let payload = [0x89u8, b'P', b'N', b'G', 13, 10, 26, 10, 0, 0, 255];
    let body = form("tok", &[text_part("title", b"t"), file_part("image", "a.png", "png", &payload)]);
    let mut request = b"POST /api/upload HTTP/1.1\r\nContent-Type: multipart/form-data; boundary=tok\r\n\r\n".to_vec();
    request.extend_from_slice(&body);
    assert_eq!(find_binary(request, "tok".to_string()), Ok(payload.to_vec()));
}

#[test]
fn find_binary_keeps_a_blank_line_in_the_payload() {
    let buffer = b"--XYZ\r\nContent-Disposition: form-data; name=\"image\"; filename=\"a.png\"\r\nContent-Type: image/png\r\n\r\nAB\r\n\r\nCD\r\n--XYZ--\r\n".to_vec();
    let image = find_binary(buffer, "XYZ".to_string()).unwrap();
    assert_eq!(image, b"AB\r\n\r\nCD".to_vec());
    assert_eq!(image.len(), 8);
}

#[test]
fn find_binary_gives_the_payload_behind_a_text_part_untouched() {
    let payload = [0x00u8, 0x58, 0x59, 0xFF, 0x2D, 0x2D, 0x58, 0x00];
    let mut buffer = b"--XYZ\r\nContent-Disposition: form-data; name=\"title\"\r\n\r\nHello\r\n--XYZ\r\nContent-Disposition: form-data; name=\"image\"; filename=\"a.png\"\r\nContent-Type: image/png\r\n\r\n".to_vec();
    buffer.extend_from_slice(&payload);
    buffer.extend_from_slice(b"\r\n--XYZ--\r\n");
    assert_eq!(find_binary(buffer, "XYZ".to_string()), Ok(payload.to_vec()));
}

#[test]
fn find_binary_agrees_with_the_decoder_on_the_payload() {
    let payload: Vec<u8> = (0u8..=255).collect();
    let body = form("b0", &[text_part("title", b"t"), file_part("image", "x.gif", "gif", &payload)]);
    let parts = decode_multipart(&body, b"b0").unwrap();
    assert_eq!(find_binary(body, "b0".to_string()), Ok(parts[1].binary_value.clone().unwrap()));
}

#[test]
fn find_binary_without_an_image_is_empty() {
    let body = form("tok", &[text_part("title", b"t")]);
    assert_eq!(find_binary(body, "tok".to_string()), Ok(Vec::<u8>::new()));
    assert_eq!(find_binary(b"--tok--\r\n".to_vec(), "tok".to_string()), Ok(Vec::<u8>::new()));
}

#[test]
fn find_binary_without_the_boundary_is_malformed() {
    assert_eq!(
        find_binary(b"plain".to_vec(), "tok".to_string()),
        Err(MultipartError::MalformedMultipart)
    );
    assert_eq!(find_binary(Vec::new(), "tok".to_string()), Err(MultipartError::MalformedMultipart));
    let body = form("other", &[file_part("image", "a.png", "png", b"x")]);
    assert_eq!(find_binary(body, "tok".to_string()), Err(MultipartError::MalformedMultipart));
    let bare = b"tok\r\nContent-Type: image/png\r\n\r\nx\r\ntok".to_vec();
    assert_eq!(find_binary(bare, "tok".to_string()), Err(MultipartError::MalformedMultipart));
}

#[test]
fn extract_images_joins_the_images_of_all_parts() {
    let body = form(
        "t",
        &[file_part("a", "a.png", "png", b"one"), text_part("x", b"y"), file_part("b", "b.png", "png", b"two")],
    );
    assert_eq!(extract_images(&body, b"--t"), Ok(b"onetwo".to_vec()));
    assert_eq!(extract_images(&body, b"--u"), Err(MultipartError::MalformedMultipart));
}
