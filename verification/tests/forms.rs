use base64::Engine;
use bare_http::account::{
    check_password, new_session_token, open_session, password_answer, read_credentials,
    session_answer, start_login, Login, PasswordCheck,
};
use bare_http::feedback::{
    comment_request, find_prefixed, plus_to_space, reaction_request, reaction_write,
    read_form_params, NewComment, NewReaction, ReactionWrite, Refusal,
};
use bare_http::form::{form_items, split_exact_pair, strip_end};

fn items(list: &[&str]) -> Vec<Vec<u8>> {
    list.iter().map(|s| s.as_bytes().to_vec()).collect()
}

#[test]
fn form_items_are_decoded_and_cut_at_ampersands() {
    assert_eq!(form_items(b"a=1&b=two%20words&c"), items(&["a=1", "b=two words", "c"]));
    assert_eq!(form_items(b""), items(&[""]));
}

#[test]
fn percent_escapes_are_resolved() {
    assert_eq!(form_items(b"%41%62%2f%2F"), items(&["Ab//"]));
    assert_eq!(form_items(b"a%26b"), items(&["a", "b"]));
    assert_eq!(form_items(b"%e2%82%ac"), vec![vec![0xe2, 0x82, 0xac]]);
}

#[test]
fn plus_signs_stay_when_decoding() {
    assert_eq!(form_items(b"a+b"), items(&["a+b"]));
}

#[test]
fn broken_percent_escapes_are_kept() {
    assert_eq!(form_items(b"100%"), items(&["100%"]));
    assert_eq!(form_items(b"%4"), items(&["%4"]));
    assert_eq!(form_items(b"%zz"), items(&["%zz"]));
    assert_eq!(form_items(b"%4z1"), items(&["%4z1"]));
    assert_eq!(form_items(b"%%41"), items(&["%A"]));
    assert_eq!(form_items(b"%4%41"), items(&["%4A"]));
}

#[test]
fn zero_bytes_at_the_end_of_an_item_are_dropped() {
    assert_eq!(form_items(b"a=1%00%00&b=2\0"), items(&["a=1", "b=2"]));
    assert_eq!(strip_end(b"x\0y\0\0", 0), b"x\0y".to_vec());
    assert_eq!(strip_end(b"\n\n", b'\n'), b"".to_vec());
}

#[test]
fn exact_pair_needs_one_equals_sign() {
    assert_eq!(split_exact_pair(b"k=v"), Some((b"k".to_vec(), b"v".to_vec())));
    assert_eq!(split_exact_pair(b"k="), Some((b"k".to_vec(), b"".to_vec())));
    assert_eq!(split_exact_pair(b"k"), None);
    assert_eq!(split_exact_pair(b"k=v=w"), None);
}

#[test]
fn credentials_are_read_from_email_and_password() {
    assert_eq!(
        read_credentials(&items(&["email= a@b.c ", "x=y", "password=secret"])),
        (b"a@b.c".to_vec(), b"secret".to_vec())
    );
    assert_eq!(
        read_credentials(&items(&["email=first", "email=second"])),
        (b"second".to_vec(), b"".to_vec())
    );
    assert_eq!(read_credentials(&items(&["email=a=b"])), (b"".to_vec(), b"".to_vec()));
}

#[test]
fn login_needs_email_and_password() {
    for form in [&["email=a@b.c"][..], &["password=secret"], &["email=&password=x"], &[]] {
        let answer = start_login(&items(form)).unwrap_err();
        assert_eq!(answer.to_bytes(), b"HTTP/1.1 400 BAD REQUEST\r\n\r\n400 Bad Request".to_vec());
    }
}

#[test]
fn login_holds_the_digest_of_the_password() {
    let login = start_login(&items(&["email=a@b.c", "password=hello"])).unwrap();
    assert_eq!(login.email, b"a@b.c".to_vec());
    assert_eq!(
        login.password_digest,
        b"2cf24dba5fb0a30e26e83b2ac5b9e29e1b161e5c1fa7425e73043362938b9824".to_vec()
    );
}

#[test]
fn password_is_checked_against_the_stored_digest() {
    let login = start_login(&items(&["email=a@b.c", "password=hello"])).unwrap();
    assert_eq!(check_password(&login, None), PasswordCheck::Register);
    assert_eq!(
        check_password(
            &login,
            Some(b"2cf24dba5fb0a30e26e83b2ac5b9e29e1b161e5c1fa7425e73043362938b9824")
        ),
        PasswordCheck::Accept
    );
    assert_eq!(check_password(&login, Some(b"hello")), PasswordCheck::Reject);
    assert_eq!(check_password(&login, Some(b"")), PasswordCheck::Reject);
}

#[test]
fn new_token_is_the_digest_of_the_encoded_record() {
    let login = Login { email: b"a@b.c".to_vec(), password_digest: b"0123abcd".to_vec() };
    let record = "{\"email\":\"a@b.c\",\"password\":\"0123abcd\"}";
    let encoded = base64::engine::general_purpose::URL_SAFE.encode(record);
    assert_eq!(encoded, "eyJlbWFpbCI6ImFAYi5jIiwicGFzc3dvcmQiOiIwMTIzYWJjZCJ9");
    let expected = sha256::digest(encoded);
    assert_eq!(new_session_token(&login), Some(expected.into_bytes()));
}

#[test]
fn new_token_is_made_from_escaped_text() {
    let login = Login { email: b"a\"b\\c".to_vec(), password_digest: b"d".to_vec() };
    let record = "{\"email\":\"a\\\"b\\\\c\",\"password\":\"d\"}";
    let expected = sha256::digest(base64::engine::general_purpose::URL_SAFE.encode(record));
    assert_eq!(new_session_token(&login), Some(expected.into_bytes()));
}

#[test]
fn new_token_depends_on_email_and_digest() {
    let a = Login { email: b"a@b.c".to_vec(), password_digest: b"x".to_vec() };
    let b = Login { email: b"a@b.d".to_vec(), password_digest: b"x".to_vec() };
    let c = Login { email: b"a@b.c".to_vec(), password_digest: b"y".to_vec() };
    let ta = new_session_token(&a).unwrap();
    assert_eq!(ta.len(), 64);
    assert_ne!(ta, new_session_token(&b).unwrap());
    assert_ne!(ta, new_session_token(&c).unwrap());
    assert_eq!(ta, new_session_token(&a).unwrap());
}

#[test]
fn stored_session_is_taken_as_it_is() {
    let login = Login { email: b"a@b.c".to_vec(), password_digest: b"x".to_vec() };
    let stored = b"stored-token".to_vec();
    let session = open_session(&login, Some(&stored)).unwrap();
    assert_eq!(session.token, stored);
    assert!(!session.is_new);
    let fresh = open_session(&login, None).unwrap();
    assert!(fresh.is_new);
    assert_eq!(Some(fresh.token), new_session_token(&login));
}

#[test]
fn form_params_turn_plus_signs_into_spaces() {
    assert_eq!(
        read_form_params(&items(&["content=a+b+c", "bad", "k=v=w", "post_id=1"])),
        vec![(b"content".to_vec(), b"a b c".to_vec()), (b"post_id".to_vec(), b"1".to_vec())]
    );
    assert_eq!(plus_to_space(b"+a++"), b" a  ".to_vec());
}

#[test]
fn comment_is_stored_percent_encoded() {
    let r = comment_request(&items(&["content=hello+world!", "post_id=7"]), Some(b"a@b.c"));
    assert_eq!(
        r,
        Ok(NewComment {
            email: b"a@b.c".to_vec(),
            content: b"hello%20world%21".to_vec(),
            post_id: 7
        })
    );
}

#[test]
fn comment_keeps_unreserved_bytes_and_encodes_the_others_in_capitals() {
    let r = comment_request(&items(&["content=aZ09-._~/\u{e9}\n", "post_id=1"]), Some(b"u")).unwrap();
    assert_eq!(r.content, b"aZ09-._~%2F%C3%A9%0A".to_vec());
}

#[test]
fn comment_without_a_session_is_unauthorized() {
    assert_eq!(comment_request(&items(&["content=x", "post_id=7"]), None), Err(Refusal::Unauthorized));
    assert_eq!(comment_request(&items(&[]), None), Err(Refusal::Unauthorized));
}

#[test]
fn comment_without_text_or_post_is_a_bad_request() {
    let user: Option<&[u8]> = Some(b"a@b.c");
    assert_eq!(comment_request(&items(&["post_id=7"]), user), Err(Refusal::BadRequest));
    assert_eq!(comment_request(&items(&["content=", "post_id=7"]), user), Err(Refusal::BadRequest));
    assert_eq!(comment_request(&items(&["content=\n\n", "post_id=7"]), user), Err(Refusal::BadRequest));
    assert_eq!(comment_request(&items(&["content=x"]), user), Err(Refusal::BadRequest));
    assert_eq!(comment_request(&items(&["content=x", "post_id=seven"]), user), Err(Refusal::BadRequest));
}

#[test]
fn find_prefixed_takes_the_first_item_with_the_prefix() {
    let list = items(&["x=1", "reaction=like\n", "reaction=love"]);
    assert_eq!(find_prefixed(&list, b"reaction="), Some(b"like".to_vec()));
    assert_eq!(find_prefixed(&list, b"post_id="), None);
    assert_eq!(find_prefixed(&items(&["reaction=a=b"]), b"reaction="), Some(b"a".to_vec()));
}

#[test]
fn reaction_is_read_from_post_and_reaction() {
    let r = reaction_request(&items(&["post_id=3\n", "reaction=like\n"]), Some(b"a@b.c"));
    assert_eq!(
        r,
        Ok(NewReaction { email: b"a@b.c".to_vec(), post_id: 3, reaction: b"like".to_vec() })
    );
}

#[test]
fn reaction_without_a_session_is_unauthorized() {
    assert_eq!(
        reaction_request(&items(&["post_id=3", "reaction=like"]), None),
        Err(Refusal::Unauthorized)
    );
}

#[test]
fn reaction_without_post_or_kind_is_a_bad_request() {
    let user: Option<&[u8]> = Some(b"a@b.c");
    assert_eq!(reaction_request(&items(&["reaction=like"]), user), Err(Refusal::BadRequest));
    assert_eq!(reaction_request(&items(&["post_id=3"]), user), Err(Refusal::BadRequest));
    assert_eq!(
        reaction_request(&items(&["post_id=x", "reaction=like"]), user),
        Err(Refusal::BadRequest)
    );
}

#[test]
fn a_user_has_one_reaction_to_a_post() {
    assert_eq!(reaction_write(true), ReactionWrite::Update);
    assert_eq!(reaction_write(false), ReactionWrite::Insert);
}

#[test]
fn wrong_password_is_answered_with_401() {
    assert_eq!(
        password_answer(PasswordCheck::Reject).unwrap().to_bytes(),
        b"HTTP/1.1 401 UNAUTHORIZED\r\n\r\n401 Unauthorized".to_vec()
    );
    assert!(password_answer(PasswordCheck::Accept).is_none());
    assert!(password_answer(PasswordCheck::Register).is_none());
}

#[test]
fn login_is_answered_with_the_cookie_of_the_session() {
    let login = Login { email: b"a@b.c".to_vec(), password_digest: b"x".to_vec() };
    let stored = b"t0".to_vec();
    let session = open_session(&login, Some(&stored));
    assert_eq!(
        session_answer(&session).to_bytes(),
        b"HTTP/1.1 301 Moved Permanently\r\nSet-Cookie: token=t0; Path=/\r\nLocation: /\r\nContent-Length: 0\r\n\r\n"
            .to_vec()
    );
    assert_eq!(session_answer(&None).code, 400);
}
