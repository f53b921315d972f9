use bare_http::api::{
    api_answer, handle_api, json_answer, write_comment, write_comments, write_comments_answer, write_list,
    write_messages, write_post, write_posts, write_reactions, write_user_reaction, CommentRow,
    MessageRow, PostRow, ReactionCount,
};
use bare_http::template::{fill_template, make_placeholder};
use bare_http::user::{
    auth_token, get_userdata, may_upload, reaction_owner, template_variables, UserData,
};

fn comment(email: &str, content: &str, datetime: &str) -> CommentRow {
    CommentRow {
        email: email.as_bytes().to_vec(),
        content: content.as_bytes().to_vec(),
        datetime: datetime.as_bytes().to_vec(),
    }
}

fn post(id: i64) -> PostRow {
    PostRow {
        post_id: id,
        title: b"T".to_vec(),
        content: b"C".to_vec(),
        email: b"a@b.c".to_vec(),
        datetime: b"2024-01-02 03:04:05".to_vec(),
        image: b"cat-1.png".to_vec(),
        comments: vec![comment("x@y.z", "hi", "2024-01-03 00:00:00")],
        reactions: vec![
            ReactionCount { kind: b"like".to_vec(), count: 3 },
            ReactionCount { kind: b"love".to_vec(), count: 1 },
        ],
    }
}

#[test]
fn placeholders_are_filled_in() {
    let vars = vec![(b"email".to_vec(), b"a@b.c".to_vec()), (b"token".to_vec(), b"t0".to_vec())];
    assert_eq!(
        fill_template(b"<p>&{email}</p><i>&{token}</i>&{email}&{other}", &vars),
        b"<p>a@b.c</p><i>t0</i>a@b.c&{other}".to_vec()
    );
    assert_eq!(fill_template(b"plain", &vars), b"plain".to_vec());
    assert_eq!(fill_template(b"&{email}", &vec![]), b"&{email}".to_vec());
    assert_eq!(make_placeholder(b"key"), b"&{key}".to_vec());
}

#[test]
fn variables_are_filled_in_one_after_the_other() {
    let vars = vec![(b"a".to_vec(), b"&{b}".to_vec()), (b"b".to_vec(), b"x".to_vec())];
    assert_eq!(fill_template(b"&{a}&{b}", &vars), b"xx".to_vec());
    let other = vec![(b"b".to_vec(), b"x".to_vec()), (b"a".to_vec(), b"&{b}".to_vec())];
    assert_eq!(fill_template(b"&{a}&{b}", &other), b"&{b}x".to_vec());
}

#[test]
fn user_is_known_by_a_stored_email() {
    assert_eq!(
        get_userdata(b"tok", Some(b"a@b.c")),
        Some(UserData { email: b"a@b.c".to_vec(), token: b"tok".to_vec() })
    );
    assert_eq!(get_userdata(b"tok", None), None);
    assert_eq!(get_userdata(b"tok", Some(b"")), None);
    assert!(auth_token(&get_userdata(b"tok", Some(b"a@b.c"))));
    assert!(!auth_token(&get_userdata(b"tok", None)));
}

#[test]
fn upload_needs_a_token_and_a_user() {
    let user = get_userdata(b"tok", Some(b"a@b.c"));
    assert!(may_upload(b"tok", &user));
    assert!(!may_upload(b"", &user));
    assert!(!may_upload(b"tok", &None));
}

#[test]
fn page_variables_are_email_and_token() {
    let user = get_userdata(b"tok", Some(b"a@b.c"));
    assert_eq!(
        template_variables(&user),
        vec![(b"email".to_vec(), b"a@b.c".to_vec()), (b"token".to_vec(), b"tok".to_vec())]
    );
    assert_eq!(template_variables(&None), vec![]);
}

#[test]
fn lists_are_written_with_commas() {
    assert_eq!(write_list(b'[', &vec![], b']'), b"[]".to_vec());
    assert_eq!(write_list(b'[', &vec![b"1".to_vec()], b']'), b"[1]".to_vec());
    assert_eq!(write_list(b'{', &vec![b"a".to_vec(), b"b".to_vec()], b'}'), b"{a,b}".to_vec());
}

#[test]
fn comments_are_written_as_json() {
    assert_eq!(
        write_comment(&comment("x@y.z", "hi%20there", "2024-01-03 00:00:00")),
        b"{\"email\":\"x@y.z\",\"content\":\"hi%20there\",\"datetime\":\"2024-01-03 00:00:00 UTC\"}"
            .to_vec()
    );
    assert_eq!(write_comments(&vec![]), b"[]".to_vec());
    assert_eq!(
        write_comments(&vec![comment("a", "b", "c"), comment("d", "e", "f")]),
        b"[{\"email\":\"a\",\"content\":\"b\",\"datetime\":\"c UTC\"},{\"email\":\"d\",\"content\":\"e\",\"datetime\":\"f UTC\"}]"
            .to_vec()
    );
}

#[test]
fn reactions_are_written_as_one_object() {
    assert_eq!(write_reactions(&vec![]), b"{}".to_vec());
    assert_eq!(write_reactions(&post(1).reactions), b"{\"like\":3,\"love\":1}".to_vec());
}

#[test]
fn posts_are_written_as_json() {
    let expected = "{\"post_id\":5,\"title\":\"T\",\"content\":\"C\",\"email\":\"a@b.c\",\"datetime\":\"2024-01-02 03:04:05 UTC\",\"image\":\"cat-1.png\",\"comments\":[{\"email\":\"x@y.z\",\"content\":\"hi\",\"datetime\":\"2024-01-03 00:00:00 UTC\"}],\"reactions\":{\"like\":3,\"love\":1}}";
    assert_eq!(write_post(&post(5)), expected.as_bytes().to_vec());
    assert_eq!(write_posts(&vec![]), b"[]".to_vec());
    let two = write_posts(&vec![post(5), post(-6)]);
    let text = String::from_utf8(two).unwrap();
    assert!(text.starts_with("[{\"post_id\":5,"));
    assert!(text.contains("},{\"post_id\":-6,"));
    assert!(text.ends_with("}]"));
    assert!(json::parse(&text).is_ok());
}

#[test]
fn user_reaction_is_the_last_kind_or_null() {
    assert_eq!(write_user_reaction(&vec![]), b"{\"type\":\"null\"}".to_vec());
    assert_eq!(
        write_user_reaction(&vec![b"like".to_vec(), b"love".to_vec()]),
        b"{\"type\":\"love\"}".to_vec()
    );
}

#[test]
fn comments_endpoint_puts_nothing_between_the_comments() {
    assert_eq!(write_comments_answer(&vec![]), b"[]".to_vec());
    assert_eq!(
        write_comments_answer(&vec![comment("a", "b", "c"), comment("d", "e", "f")]),
        b"[{\"email\":\"a\",\"content\":\"b\",\"datetime\":\"c UTC\"}{\"email\":\"d\",\"content\":\"e\",\"datetime\":\"f UTC\"}]"
            .to_vec()
    );
}

#[test]
fn messages_are_listed_for_their_endpoint_only() {
    let row = |email: &str, message: &str, datetime: &str| MessageRow {
        email: email.as_bytes().to_vec(),
        message: message.as_bytes().to_vec(),
        datetime: datetime.as_bytes().to_vec(),
    };
    let one = "{\n                \"email\": \"a@b.c\",\n                \"message\": \"hello\",\n                \"datetime\": \"now\"\n            }";
    let two = "{\n                \"email\": \"x\",\n                \"message\": \"y\",\n                \"datetime\": \"z\"\n            }";
    let rows = vec![row("a@b.c", "hello", "now"), row("x", "y", "z")];
    assert_eq!(write_messages(&rows), format!("[{},{}]", one, two).into_bytes());
    assert_eq!(write_messages(&vec![]), b"[]".to_vec());
    let listed = handle_api(b"messages", &rows);
    assert_eq!(
        listed.to_bytes(),
        format!("HTTP/1.1 200 OK\r\nContent-Type: application/json\r\n\r\n[{},{}]", one, two)
            .into_bytes()
    );
    assert_eq!(handle_api(b"other", &rows).to_bytes(), b"HTTP/1.1 404 NOT FOUND\r\n\r\n".to_vec());
}

#[test]
fn reaction_of_a_client_without_a_user_is_looked_up_under_null() {
    assert_eq!(reaction_owner(&None), b"null".to_vec());
    assert_eq!(reaction_owner(&get_userdata(b"t", Some(b"a@b.c"))), b"a@b.c".to_vec());
}

#[test]
fn json_answers_declare_their_type() {
    assert_eq!(
        json_answer(b"[]".to_vec()).to_bytes(),
        b"HTTP/1.1 200 OK\r\nContent-Type: application/json\r\n\r\n[]".to_vec()
    );
}

#[test]
fn api_answers_have_their_placeholders_filled_in() {
    let vars = vec![(b"email".to_vec(), b"a@b.c".to_vec())];
    assert_eq!(
        api_answer(b"[{\"title\":\"for &{email}\"}]".to_vec(), &vars).to_bytes(),
        b"HTTP/1.1 200 OK\r\nContent-Type: application/json\r\n\r\n[{\"title\":\"for a@b.c\"}]"
            .to_vec()
    );
    assert_eq!(
        api_answer(b"[]".to_vec(), &vec![]).to_bytes(),
        b"HTTP/1.1 200 OK\r\nContent-Type: application/json\r\n\r\n[]".to_vec()
    );
}
