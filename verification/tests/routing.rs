use bare_http::router::{match_type, route, RouteClass};

fn pair(d: &str, r: &str) -> (Vec<u8>, Vec<u8>) {
    (d.as_bytes().to_vec(), r.as_bytes().to_vec())
}

#[test]
fn root_is_the_index_page() {
    assert_eq!(match_type(b"/"), pair("pages", "index.html"));
}

#[test]
fn plain_path_is_a_page() {
    assert_eq!(match_type(b"/about"), pair("pages", "about.html"));
}

#[test]
fn api_path_is_an_endpoint() {
    assert_eq!(match_type(b"/api/posts"), pair("api", "posts"));
    assert_eq!(route(b"/api/posts").class, RouteClass::ApiEndpoint);
}

#[test]
fn path_with_extension_is_an_asset() {
    assert_eq!(match_type(b"/css/style.css"), pair("css", "style.css"));
    assert_eq!(route(b"/css/style.css").class, RouteClass::StaticAsset);
}

#[test]
fn image_goes_to_the_image_directory() {
    let r = route(b"/photo.png");
    assert_eq!(r.directory, b"images".to_vec());
    assert_eq!(r.resource, b"photo.png".to_vec());
    assert_eq!(r.image_type, Some(b"image/png".to_vec()));
    assert_eq!(r.class, RouteClass::StaticAsset);
}

fn params(r: &bare_http::router::RouteTarget) -> Vec<(String, String)> {
    r.query_params
        .iter()
        .map(|(k, v)| (String::from_utf8(k.clone()).unwrap(), String::from_utf8(v.clone()).unwrap()))
        .collect()
}

fn owned(pairs: &[(&str, &str)]) -> Vec<(String, String)> {
    pairs.iter().map(|(k, v)| (k.to_string(), v.to_string())).collect()
}

#[test]
fn page_classes_and_image_types() {
    assert_eq!(route(b"/").class, RouteClass::StaticPage);
    assert_eq!(route(b"/about").class, RouteClass::StaticPage);
    assert_eq!(route(b"/about").image_type, None);
    assert_eq!(route(b"/css/style.css").image_type, None);
}

#[test]
fn every_image_extension_is_forced_to_images() {
    for ext in ["png", "jpg", "jpeg", "gif", "ico"] {
        let path = format!("/some/dir/picture.{}", ext);
        let r = route(path.as_bytes());
        assert_eq!(r.directory, b"images".to_vec());
        assert_eq!(r.resource, format!("picture.{}", ext).into_bytes());
        assert_eq!(r.image_type, Some(format!("image/{}", ext).into_bytes()));
    }
}

#[test]
fn other_extensions_keep_their_directory() {
    let r = route(b"/js/vendor/app.min.js");
    assert_eq!(r.directory, b"js/vendor".to_vec());
    assert_eq!(r.resource, b"app.min.js".to_vec());
    assert_eq!(r.image_type, None);
    assert_eq!(route(b"/PHOTO.PNG").image_type, None);
    assert_eq!(route(b"/PHOTO.PNG").directory, b"".to_vec());
}

#[test]
fn asset_in_the_root_has_an_empty_directory() {
    assert_eq!(match_type(b"/robots.txt"), pair("", "robots.txt"));
    assert_eq!(match_type(b"robots.txt"), pair("", "robots.txt"));
}

#[test]
fn api_is_a_whole_segment() {
    assert_eq!(match_type(b"/capital"), pair("pages", "capital.html"));
    assert_eq!(route(b"/capital").class, RouteClass::StaticPage);
    assert_eq!(match_type(b"/v1/api/users/list"), pair("api", "list"));
    assert_eq!(match_type(b"/api"), pair("api", "api"));
}

#[test]
fn nested_page_is_named_by_its_last_segment() {
    assert_eq!(match_type(b"/docs/intro"), pair("pages", "intro.html"));
    assert_eq!(match_type(b""), pair("pages", ".html"));
    assert_eq!(match_type(b"/docs/"), pair("pages", ".html"));
}

#[test]
fn query_is_stripped_and_parsed_in_order() {
    let r = route(b"/api/comments?post_id=7&sort=new");
    assert_eq!(r.class, RouteClass::ApiEndpoint);
    assert_eq!(r.directory, b"api".to_vec());
    assert_eq!(r.resource, b"comments".to_vec());
    assert_eq!(params(&r), owned(&[("post_id", "7"), ("sort", "new")]));
}

#[test]
fn repeated_query_keys_are_kept() {
    let r = route(b"/search?tag=a&tag=b&tag=a");
    assert_eq!(params(&r), owned(&[("tag", "a"), ("tag", "b"), ("tag", "a")]));
    assert_eq!(r.resource, b"search.html".to_vec());
}

#[test]
fn query_item_without_a_value_has_an_empty_one() {
    let r = route(b"/x?flag&k=v=w&=z");
    assert_eq!(params(&r), owned(&[("flag", ""), ("k", "v"), ("", "z")]));
}

#[test]
fn path_without_a_query_has_no_parameters() {
    assert_eq!(params(&route(b"/about")), owned(&[]));
    assert_eq!(params(&route(b"/about?")), owned(&[("", "")]));
}

#[test]
fn dot_in_the_query_does_not_make_an_asset() {
    let r = route(b"/about?file=a.png");
    assert_eq!(r.class, RouteClass::StaticPage);
    assert_eq!(r.resource, b"about.html".to_vec());
}
