use minihttp::headers::HeaderMap;
use minihttp::method::HttpRequestMethod;
use minihttp::parser::Parser;
use minihttp::request::HttpRequest;
use minihttp::router::{HttpRouter, Route};

fn req(method: HttpRequestMethod, target: &str) -> HttpRequest {
    HttpRequest::new(
        method,
        target.to_string(),
        "HTTP/1.1".to_string(),
        String::new(),
        HeaderMap::new(),
        HeaderMap::new(),
    )
}

#[test]
fn literal_route_resolves() {
    let mut router: HttpRouter<u32> = HttpRouter::new();
    router.get("/", 1);
    router.get("/user-agent", 2);
    assert_eq!(router.get_handler(&req(HttpRequestMethod::GET, "/")), Some(&1));
    assert_eq!(router.get_handler(&req(HttpRequestMethod::GET, "/user-agent")), Some(&2));
}

#[test]
fn template_route_resolves() {
    let mut router: HttpRouter<u32> = HttpRouter::new();
    router.get("/echo/{str}", 7);
    assert_eq!(router.get_handler(&req(HttpRequestMethod::GET, "/echo/abc")), Some(&7));
    assert_eq!(router.get_handler(&req(HttpRequestMethod::GET, "/echo/a.b-c_9")), Some(&7));
}

#[test]
fn template_segment_count_must_match() {
    let mut router: HttpRouter<u32> = HttpRouter::new();
    router.get("/echo/{str}", 7);
    assert_eq!(router.get_handler(&req(HttpRequestMethod::GET, "/echo")), None);
    assert_eq!(router.get_handler(&req(HttpRequestMethod::GET, "/echo/a/b")), None);
}

#[test]
fn template_rejects_characters_outside_class() {
    let mut router: HttpRouter<u32> = HttpRouter::new();
    router.get("/echo/{str}", 7);
    assert_eq!(router.get_handler(&req(HttpRequestMethod::GET, "/echo/a b")), None);
    assert_eq!(router.get_handler(&req(HttpRequestMethod::GET, "/echo/a%20b")), None);
}

#[test]
fn literal_wins_over_template() {
    let mut router: HttpRouter<u32> = HttpRouter::new();
    router.get("/echo/{str}", 7);
    router.get("/echo/abc", 8);
    assert_eq!(router.get_handler(&req(HttpRequestMethod::GET, "/echo/abc")), Some(&8));
    assert_eq!(router.get_handler(&req(HttpRequestMethod::GET, "/echo/xyz")), Some(&7));
}

#[test]
fn unbound_method_misses() {
    let mut router: HttpRouter<u32> = HttpRouter::new();
    router.get("/files/{filename}", 1);
    assert_eq!(router.get_handler(&req(HttpRequestMethod::POST, "/files/a.txt")), None);
    assert_eq!(router.get_handler(&req(HttpRequestMethod::GET, "/nothing")), None);
}

#[test]
fn two_methods_share_one_route() {
    let mut router: HttpRouter<u32> = HttpRouter::new();
    router.get("/files/{filename}", 1);
    router.post("/files/{filename}", 2);
    assert_eq!(router.get_routes().len(), 1);
    assert_eq!(router.get_handler(&req(HttpRequestMethod::GET, "/files/x")), Some(&1));
    assert_eq!(router.get_handler(&req(HttpRequestMethod::POST, "/files/x")), Some(&2));
}

#[test]
fn re_registration_replaces_the_handler() {
    let mut router: HttpRouter<u32> = HttpRouter::new();
    router.get("/a", 1);
    router.get("/a", 2);
    assert_eq!(router.get_routes().len(), 1);
    assert_eq!(router.get_handler(&req(HttpRequestMethod::GET, "/a")), Some(&2));
}

#[test]
fn registration_normalizes_trailing_slashes() {
    let mut router: HttpRouter<u32> = HttpRouter::new();
    router.get("/files/", 5);
    assert_eq!(router.get_handler(&req(HttpRequestMethod::GET, "/files")), Some(&5));
}

#[test]
fn all_method_helpers_register() {
    let mut router: HttpRouter<u32> = HttpRouter::new();
    router.get("/m", 1);
    router.post("/m", 2);
    router.patch("/m", 3);
    router.put("/m", 4);
    router.options("/m", 5);
    router.delete("/m", 6);
    assert_eq!(router.get_handler(&req(HttpRequestMethod::GET, "/m")), Some(&1));
    assert_eq!(router.get_handler(&req(HttpRequestMethod::POST, "/m")), Some(&2));
    assert_eq!(router.get_handler(&req(HttpRequestMethod::PATCH, "/m")), Some(&3));
    assert_eq!(router.get_handler(&req(HttpRequestMethod::PUT, "/m")), Some(&4));
    assert_eq!(router.get_handler(&req(HttpRequestMethod::OPTIONS, "/m")), Some(&5));
    assert_eq!(router.get_handler(&req(HttpRequestMethod::DELETE, "/m")), Some(&6));
}

#[test]
fn params_of_first_matching_template() {
    let mut router: HttpRouter<u32> = HttpRouter::new();
    router.get("/echo/{name}/{age}", 1);
    let params = Parser::new().parse_path_params(&"/echo/bob/42".to_string(), &router);
    assert_eq!(params.get("name").unwrap(), "bob");
    assert_eq!(params.get("age").unwrap(), "42");
}

#[test]
fn params_empty_when_nothing_matches() {
    let mut router: HttpRouter<u32> = HttpRouter::new();
    router.get("/echo/{str}", 1);
    let params = Parser::new().parse_path_params(&"/other/abc".to_string(), &router);
    assert_eq!(params.len(), 0);
}

#[test]
fn route_value_accessors() {
    let route: Route<u32> = Route::new(HttpRequestMethod::GET, 9);
    assert!(route.get_path_params().is_empty());
    let mut router: HttpRouter<u32> = HttpRouter::new();
    router.get("/a/{x}/b/{y}", 1);
    let routes = router.get_routes();
    assert_eq!(routes.len(), 1);
    // placeholders at the second and fourth non-empty segments
    let pp = routes[0].1.get_path_params();
    assert_eq!(pp.len(), 2);
    assert_eq!(pp[0], (2, "x".to_string()));
    assert_eq!(pp[1], (4, "y".to_string()));
}

#[test]
fn registration_order_breaks_template_ties() {
    let mut router: HttpRouter<u32> = HttpRouter::new();
    router.get("/a/{x}", 1);
    router.get("/{y}/b", 2);
    // both templates match "/a/b"; the first registered wins
    assert_eq!(router.get_handler(&req(HttpRequestMethod::GET, "/a/b")), Some(&1));
}
