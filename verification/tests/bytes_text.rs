use bare_http::bytes::{
    contains, find_from, find_last, find_subslice, matches_at, replace_all, same_bytes,
    same_ignoring_case, split_bytes, split_words, text_after_last, trim_bytes,
};
use bare_http::number::{parse_decimal, parse_integer, print_decimal, push_integer};

#[test]
fn find_subslice_gives_the_first_occurrence() {
    assert_eq!(find_subslice(b"abcabc", b"bc"), Some(1));
    assert_eq!(find_subslice(b"abcabc", b"abc"), Some(0));
    assert_eq!(find_subslice(b"abcabc", b"cab"), Some(2));
}

#[test]
fn find_subslice_misses_what_is_not_there() {
    assert_eq!(find_subslice(b"abcabc", b"abd"), None);
    assert_eq!(find_subslice(b"ab", b"abc"), None);
    assert_eq!(find_subslice(b"", b"a"), None);
}

#[test]
fn find_subslice_finds_the_empty_needle_at_the_start() {
    assert_eq!(find_subslice(b"abc", b""), Some(0));
    assert_eq!(find_subslice(b"", b""), Some(0));
}

#[test]
fn find_subslice_works_on_bytes_that_are_no_text() {
    let hay: [u8; 6] = [0, 255, 13, 10, 0, 254];
    assert_eq!(find_subslice(&hay, &[13, 10]), Some(2));
    assert_eq!(find_subslice(&hay, &[0, 254]), Some(4));
}

#[test]
fn find_from_starts_at_the_offset() {
    assert_eq!(find_from(b"abcabc", b"bc", 2), Some(4));
    assert_eq!(find_from(b"abcabc", b"bc", 1), Some(1));
    assert_eq!(find_from(b"abcabc", b"bc", 5), None);
    assert_eq!(find_from(b"abcabc", b"bc", 6), None);
}

#[test]
fn find_last_gives_the_last_occurrence() {
    assert_eq!(find_last(b"abcabc", b"bc"), Some(4));
    assert_eq!(find_last(b"abcabc", b"x"), None);
    assert_eq!(find_last(b"aaa", b"aa"), Some(1));
}

#[test]
fn text_after_last_keeps_the_whole_without_an_occurrence() {
    assert_eq!(text_after_last(b"a=1; token=xyz", b"token="), b"xyz");
    assert_eq!(text_after_last(b"token=a; token=b", b"token="), b"b");
    assert_eq!(text_after_last(b"nothing here", b"token="), b"nothing here");
}

#[test]
fn contains_says_whether_the_needle_occurs() {
    assert!(contains(b"multipart/form-data; boundary=x", b"multipart/form-data"));
    assert!(!contains(b"text/plain", b"multipart/form-data"));
}

#[test]
fn trim_takes_white_space_from_both_ends_only() {
    assert_eq!(trim_bytes(b"  a b \t\r\n"), b"a b");
    assert_eq!(trim_bytes(b"\x0b\x0cx"), b"x");
    assert_eq!(trim_bytes(b"   "), b"");
    assert_eq!(trim_bytes(b""), b"");
    assert_eq!(trim_bytes(b"abc"), b"abc");
}

#[test]
fn split_words_cuts_at_runs_of_white_space() {
    assert_eq!(
        split_words(b"  GET   /index.html\tHTTP/1.1 "),
        vec![b"GET".to_vec(), b"/index.html".to_vec(), b"HTTP/1.1".to_vec()]
    );
    assert_eq!(split_words(b"   "), Vec::<Vec<u8>>::new());
    assert_eq!(split_words(b""), Vec::<Vec<u8>>::new());
}

#[test]
fn split_bytes_keeps_empty_pieces() {
    assert_eq!(split_bytes(b"a/b", b'/'), vec![b"a".to_vec(), b"b".to_vec()]);
    assert_eq!(split_bytes(b"/a/", b'/'), vec![b"".to_vec(), b"a".to_vec(), b"".to_vec()]);
    assert_eq!(split_bytes(b"", b'/'), vec![b"".to_vec()]);
    assert_eq!(split_bytes(b"abc", b'/'), vec![b"abc".to_vec()]);
}

#[test]
fn matches_at_is_false_outside_the_haystack() {
    assert!(matches_at(b"abc", b"bc", 1));
    assert!(!matches_at(b"abc", b"bc", 0));
    assert!(!matches_at(b"abc", b"bc", 2));
    assert!(!matches_at(b"abc", b"bc", 7));
    assert!(matches_at(b"abc", b"", 3));
    assert!(!matches_at(b"abc", b"", 4));
}

#[test]
fn find_from_outside_the_haystack_finds_nothing() {
    assert_eq!(find_from(b"abc", b"", 3), Some(3));
    assert_eq!(find_from(b"abc", b"", 4), None);
    assert_eq!(find_from(b"abc", b"a", 9), None);
}

#[test]
fn same_bytes_compares_length_and_content() {
    assert!(same_bytes(b"", b""));
    assert!(same_bytes(b"GET", b"GET"));
    assert!(!same_bytes(b"GET", b"GE"));
    assert!(!same_bytes(b"GET", b"get"));
}

#[test]
fn replace_all_replaces_from_left_to_right() {
    assert_eq!(replace_all(b"aaa", b"aa", b"b"), b"ba".to_vec());
    assert_eq!(replace_all(b"x&{k}y&{k}", b"&{k}", b"12"), b"x12y12".to_vec());
    assert_eq!(replace_all(b"abc", b"", b"z"), b"abc".to_vec());
    assert_eq!(replace_all(b"abc", b"d", b"z"), b"abc".to_vec());
}

#[test]
fn same_ignoring_case_compares_letters_only() {
    assert!(same_ignoring_case(b"Content-Length", b"content-length"));
    assert!(same_ignoring_case(b"CONTENT-LENGTH", b"Content-Length"));
    assert!(!same_ignoring_case(b"Content-Length", b"Content_Length"));
    assert!(!same_ignoring_case(b"Content-Length", b"Content-Lengt"));
    assert!(!same_ignoring_case(b"@", b"`"));
}

#[test]
fn parse_decimal_reads_digits_with_an_optional_plus() {
    assert_eq!(parse_decimal(b"0"), Some(0));
    assert_eq!(parse_decimal(b"42"), Some(42));
    assert_eq!(parse_decimal(b"+42"), Some(42));
    assert_eq!(parse_decimal(b"007"), Some(7));
}

#[test]
fn parse_decimal_refuses_what_is_no_number() {
    assert_eq!(parse_decimal(b""), None);
    assert_eq!(parse_decimal(b"+"), None);
    assert_eq!(parse_decimal(b"-1"), None);
    assert_eq!(parse_decimal(b"12a"), None);
    assert_eq!(parse_decimal(b" 12"), None);
    assert_eq!(parse_decimal(b"99999999999999999999999999"), None);
}

#[test]
fn parse_decimal_agrees_with_std_at_the_limit() {
    let max = usize::MAX.to_string();
    assert_eq!(parse_decimal(max.as_bytes()), Some(usize::MAX));
    let mut over = max.clone();
    over.push('0');
    assert_eq!(parse_decimal(over.as_bytes()), None);
}

#[test]
fn parse_integer_reads_both_signs() {
    assert_eq!(parse_integer(b"17"), Some(17));
    assert_eq!(parse_integer(b"+17"), Some(17));
    assert_eq!(parse_integer(b"-17"), Some(-17));
    assert_eq!(parse_integer(b"9223372036854775807"), Some(i64::MAX));
    assert_eq!(parse_integer(b"-9223372036854775808"), Some(i64::MIN));
}

#[test]
fn parse_integer_refuses_what_is_out_of_range_or_no_number() {
    assert_eq!(parse_integer(b"9223372036854775808"), None);
    assert_eq!(parse_integer(b"-9223372036854775809"), None);
    assert_eq!(parse_integer(b"-"), None);
    assert_eq!(parse_integer(b""), None);
    assert_eq!(parse_integer(b" 5"), None);
    assert_eq!(parse_integer(b"5\n"), None);
}

#[test]
fn print_decimal_writes_without_leading_zeros() {
    assert_eq!(print_decimal(0), b"0".to_vec());
    assert_eq!(print_decimal(7), b"7".to_vec());
    assert_eq!(print_decimal(301), b"301".to_vec());
    assert_eq!(print_decimal(u64::MAX), b"18446744073709551615".to_vec());
}

#[test]
fn printed_numbers_read_back() {
    for n in [0usize, 1, 9, 10, 99, 100, 4096, 65535] {
        assert_eq!(parse_decimal(&print_decimal(n as u64)), Some(n));
    }
}

#[test]
fn push_integer_writes_a_minus_sign() {
    let mut out = b"x=".to_vec();
    push_integer(&mut out, -42);
    assert_eq!(out, b"x=-42".to_vec());
    let mut min = Vec::new();
    push_integer(&mut min, i64::MIN);
    assert_eq!(min, b"-9223372036854775808".to_vec());
    let mut zero = Vec::new();
    push_integer(&mut zero, 0);
    assert_eq!(zero, b"0".to_vec());
}
