use m_server::http::response::HttpResponse;

const TAIL: &str = "\nServer: m_server/0.1.4-alpha\nContent-Type: application/json\r\n\r\n";

#[test]
fn status_lines_are_exact() {
    assert_eq!(HttpResponse::ok().response, format!("HTTP/1.1 200 OK{}", TAIL));
    assert_eq!(HttpResponse::created().response, format!("HTTP/1.1 201 Created{}", TAIL));
    assert_eq!(HttpResponse::accepted().response, format!("HTTP/1.1 Accepted{}", TAIL));
    assert_eq!(HttpResponse::bad_request().response, format!("HTTP/1.1 400 Bad Request{}", TAIL));
    assert_eq!(HttpResponse::not_found().response, format!("HTTP/1.1 404 Not Found{}", TAIL));
    assert_eq!(
        HttpResponse::error().response,
        format!("HTTP/1.1 500 Internal Server Error{}", TAIL)
    );
}

#[test]
fn status_message_wraps_any_status_text() {
    assert_eq!(HttpResponse::status_message("418 Teapot"), format!("HTTP/1.1 418 Teapot{}", TAIL));
}

#[test]
fn new_wraps_prebuilt_text() {
    let r = HttpResponse::new("raw".to_string());
    assert_eq!(r.response, "raw");
}

#[test]
fn with_body_appends() {
    let r = HttpResponse::ok();
    let text = r.with_body("payload");
    assert_eq!(text, format!("HTTP/1.1 200 OK{}payload", TAIL));
}
