use m_server::LineOrError;
use m_server::http::request::HttpRequest;
use m_server::http::response::HttpResponse;

fn fresh_request() -> HttpRequest {
    let lines = vec![LineOrError::Line("GET /once HTTP/1.1".to_string())];
    HttpRequest::new(lines, "", None).unwrap()
}

#[test]
fn respond_writes_exactly_once() {
    // Two respond calls on one handle: exactly one produces wire text,
    // the second is a no-op.
    let mut req = fresh_request();
    assert!(!req.responded());

    let first = req.respond(HttpResponse::ok());
    assert!(first.is_some());
    assert!(req.responded());

    let second = req.respond(HttpResponse::ok());
    assert!(second.is_none());
    assert!(req.responded());
}

#[test]
fn respond_with_body_writes_exactly_once() {
    let mut req = fresh_request();

    let first = req.respond_with_body(&HttpResponse::created(), "{\"id\":1}");
    let text = first.unwrap();
    assert!(text.starts_with("HTTP/1.1 201 Created"));
    assert!(text.ends_with("\r\n\r\n{\"id\":1}"));

    let second = req.respond_with_body(&HttpResponse::created(), "{\"id\":1}");
    assert!(second.is_none());
}

#[test]
fn mixed_respond_calls_still_write_once() {
    let mut req = fresh_request();
    assert!(req.respond(HttpResponse::ok()).is_some());
    assert!(req.respond_with_body(&HttpResponse::error(), "oops").is_none());
    assert!(req.respond(HttpResponse::not_found()).is_none());
}
