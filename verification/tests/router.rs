use m_server::http::request::HttpRequestMethod;
use m_server::router::HttpRouter;

#[test]
fn template_captures_one_segment() {
    // `/users/{id}` matches `/users/77` and captures id = "77".
    let mut router: HttpRouter<u32> = HttpRouter::new();
    router.add_route(HttpRequestMethod::Get, "/users/{id}", 1);
    let m = router.resolve(HttpRequestMethod::Get, "/users/77").unwrap();
    assert_eq!(m.index, 0);
    assert_eq!(m.params.get("id").unwrap().as_str(), "77");
    assert_eq!(*router.handler(m.index), 1);
}

#[test]
fn literal_template_does_not_capture() {
    // The literal `/users/abc` does not match `/users/77`.
    let mut router: HttpRouter<u32> = HttpRouter::new();
    router.add_route(HttpRequestMethod::Get, "/users/abc", 1);
    assert!(router.resolve(HttpRequestMethod::Get, "/users/77").is_none());
    let m = router.resolve(HttpRequestMethod::Get, "/users/abc").unwrap();
    assert_eq!(m.index, 0);
    assert_eq!(m.params.len(), 0);
}

#[test]
fn unmatched_requests_resolve_to_nothing() {
    // With no registered pattern matching, resolution finds nothing.
    let mut router: HttpRouter<u32> = HttpRouter::new();
    assert!(router.resolve(HttpRequestMethod::Get, "/anything").is_none());
    router.add_route(HttpRequestMethod::Get, "/a", 1);
    assert!(router.resolve(HttpRequestMethod::Get, "/b").is_none());
    // The method is part of the key.
    assert!(router.resolve(HttpRequestMethod::Post, "/a").is_none());
    assert!(router.resolve(HttpRequestMethod::Get, "/a").is_some());
}

#[test]
fn earliest_registration_wins_ties() {
    // Two templates that both match: the one bound earliest is selected.
    let mut router: HttpRouter<u32> = HttpRouter::new();
    router.add_route(HttpRequestMethod::Get, "/users/{id}", 1);
    router.add_route(HttpRequestMethod::Get, "/users/abc", 2);
    let m = router.resolve(HttpRequestMethod::Get, "/users/abc").unwrap();
    assert_eq!(m.index, 0);
    assert_eq!(*router.handler(m.index), 1);
    assert_eq!(m.params.get("id").unwrap().as_str(), "abc");
}

#[test]
fn earliest_registration_wins_ties_reversed() {
    let mut router: HttpRouter<u32> = HttpRouter::new();
    router.add_route(HttpRequestMethod::Get, "/users/abc", 2);
    router.add_route(HttpRequestMethod::Get, "/users/{id}", 1);
    let m = router.resolve(HttpRequestMethod::Get, "/users/abc").unwrap();
    assert_eq!(m.index, 0);
    assert_eq!(*router.handler(m.index), 2);
    assert_eq!(m.params.len(), 0);
}

#[test]
fn several_captures_in_one_template() {
    let mut router: HttpRouter<u32> = HttpRouter::new();
    router.add_route(HttpRequestMethod::Post, "/a/{x}/b/{y}", 7);
    let m = router.resolve(HttpRequestMethod::Post, "/a/1/b/2").unwrap();
    assert_eq!(m.params.len(), 2);
    assert_eq!(m.params.get("x").unwrap().as_str(), "1");
    assert_eq!(m.params.get("y").unwrap().as_str(), "2");
    assert!(router.resolve(HttpRequestMethod::Post, "/a/1/b").is_none());
    assert!(router.resolve(HttpRequestMethod::Post, "/a/1/c/2").is_none());
}

#[test]
fn capture_requires_a_non_empty_segment() {
    let mut router: HttpRouter<u32> = HttpRouter::new();
    router.add_route(HttpRequestMethod::Get, "/users/{id}", 1);
    assert!(router.resolve(HttpRequestMethod::Get, "/users/").is_none());
    assert!(router.resolve(HttpRequestMethod::Get, "/users").is_none());
    assert!(router.resolve(HttpRequestMethod::Get, "/users/1/2").is_none());
}

#[test]
fn malformed_templates_are_skipped() {
    let mut router: HttpRouter<u32> = HttpRouter::new();
    // An empty capture name.
    router.add_route(HttpRequestMethod::Get, "/x/{}", 1);
    assert!(router.resolve(HttpRequestMethod::Get, "/x/anything").is_none());
    // A name starting with a digit.
    router.add_route(HttpRequestMethod::Get, "/y/{1bad}", 2);
    assert!(router.resolve(HttpRequestMethod::Get, "/y/anything").is_none());
    // A repeated name.
    router.add_route(HttpRequestMethod::Get, "/z/{a}/{a}", 3);
    assert!(router.resolve(HttpRequestMethod::Get, "/z/1/2").is_none());
    // A later well-formed registration still works.
    router.add_route(HttpRequestMethod::Get, "/x/{ok}", 4);
    let m = router.resolve(HttpRequestMethod::Get, "/x/anything").unwrap();
    assert_eq!(*router.handler(m.index), 4);
}

#[test]
fn empty_segments_of_a_template_are_dropped() {
    let mut router: HttpRouter<u32> = HttpRouter::new();
    router.add_route(HttpRequestMethod::Get, "/a//b/", 1);
    assert!(router.resolve(HttpRequestMethod::Get, "/a/b").is_some());
    assert!(router.resolve(HttpRequestMethod::Get, "/a//b/").is_none());
}

#[test]
fn root_template_has_no_segments() {
    // `/` compiles to an empty pattern, which matches only the empty
    // path, so the root path itself resolves to nothing.
    let mut router: HttpRouter<u32> = HttpRouter::new();
    router.add_route(HttpRequestMethod::Get, "/", 1);
    assert!(router.resolve(HttpRequestMethod::Get, "/").is_none());
    assert!(router.resolve(HttpRequestMethod::Get, "").is_some());
}

#[test]
fn route_renders_readably() {
    let route = m_server::router::HttpRoute {
        method: HttpRequestMethod::Get,
        path: "/dsaj".to_string(),
    };
    assert_eq!(route.route_string(), "Method: GET Path: /dsaj");
}
