// The route templates replace the anchored patterns a regex engine would
// compile from the same paths. These tests hold the table's matching
// against a regex built the same way: `/` separators, literal segments
// verbatim, placeholders as one-or-more characters of the parameter class.

use minihttp::headers::HeaderMap;
use minihttp::method::HttpRequestMethod;
use minihttp::request::HttpRequest;
use minihttp::router::HttpRouter;
use regex::Regex;

fn req(target: &str) -> HttpRequest {
    HttpRequest::new(
        HttpRequestMethod::GET,
        target.to_string(),
        "HTTP/1.1".to_string(),
        String::new(),
        HeaderMap::new(),
        HeaderMap::new(),
    )
}

#[test]
fn single_placeholder_agrees_with_regex() {
    let mut router: HttpRouter<u32> = HttpRouter::new();
    router.get("/echo/{str}", 1);
    let re = Regex::new(r"^/echo/([a-zA-Z_\-0-9\.]+)$").unwrap();
    for target in [
        "/echo/abc",
        "/echo/a.b-c_9",
        "/echo/a b",
        "/echo/",
        "/echo",
        "/echo/a/b",
        "/echoX/abc",
        "/Echo/abc",
        "/echo/%41",
    ] {
        let table = router.get_handler(&req(target)).is_some();
        let regex = re.is_match(target);
        assert_eq!(table, regex, "disagreement on {:?}", target);
    }
}

#[test]
fn two_placeholders_agree_with_regex() {
    let mut router: HttpRouter<u32> = HttpRouter::new();
    router.get("/a/{x}/b/{y}", 1);
    let re = Regex::new(r"^/a/([a-zA-Z_\-0-9\.]+)/b/([a-zA-Z_\-0-9\.]+)$").unwrap();
    for target in [
        "/a/1/b/2",
        "/a/one/b/two.three",
        "/a//b/2",
        "/a/1/b",
        "/a/1/c/2",
        "/a/1/b/2/3",
    ] {
        let table = router.get_handler(&req(target)).is_some();
        let regex = re.is_match(target);
        assert_eq!(table, regex, "disagreement on {:?}", target);
    }
}
