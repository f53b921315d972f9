use bare_http::feedback::comment_request;
use bare_http::form::form_items;

fn hex_value(b: u8) -> Option<u8> {
    match b {
        b'0'..=b'9' => Some(b - b'0'),
        b'A'..=b'F' => Some(b - b'A' + 10),
        b'a'..=b'f' => Some(b - b'a' + 10),
        _ => None,
    }
}

/// The rule of decoding, written out once more: two hexadecimal digits
/// behind a percent sign make a byte, anything else stands for itself.
fn decoded_by_rule(s: &[u8]) -> Vec<u8> {
    let mut out = Vec::new();
    let mut i = 0;
    while i < s.len() {
        if s[i] == b'%' && s.len() - i >= 3 {
            match (hex_value(s[i + 1]), hex_value(s[i + 2])) {
                (Some(high), Some(low)) => {
                    out.push(high * 16 + low);
                    i += 3;
                }
                (Some(_), None) => {
                    out.push(b'%');
                    out.push(s[i + 1]);
                    i += 2;
                }
                (None, _) => {
                    out.push(b'%');
                    i += 1;
                }
            }
        } else if s[i] == b'%' {
            out.extend_from_slice(&s[i..]);
            i = s.len();
        } else {
            out.push(s[i]);
            i += 1;
        }
    }
    out
}

#[test]
fn decoding_follows_the_rule_on_every_short_input() {
    let alphabet = [b'%', b'4', b'1', b'z', b'a', b'F', b'g', b'9'];
    for len in 0..=5u32 {
        for mut k in 0..alphabet.len().pow(len) {
            let mut s = Vec::new();
            for _ in 0..len {
                s.push(alphabet[k % alphabet.len()]);
                k /= alphabet.len();
            }
            assert_eq!(form_items(&s), vec![decoded_by_rule(&s)], "input {:?}", s);
        }
    }
}

#[test]
fn encoding_keeps_unreserved_bytes_and_escapes_every_other() {
    for b in 1..=255u8 {
        if b == b'=' || b == b'+' {
            continue;
        }
        let mut item = b"content=x".to_vec();
        item.push(b);
        item.push(b'y');
        let comment = comment_request(&vec![item, b"post_id=1".to_vec()], Some(b"u")).unwrap();
        let mut expected = b"x".to_vec();
        if b.is_ascii_alphanumeric() || b == b'-' || b == b'.' || b == b'_' || b == b'~' {
            expected.push(b);
        } else {
            expected.extend_from_slice(format!("%{:02X}", b).as_bytes());
        }
        expected.push(b'y');
        assert_eq!(comment.content, expected, "byte {}", b);
    }
}
