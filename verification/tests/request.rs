use m_server::LineOrError;
use m_server::http::request::{HttpRequest, HttpRequestMethod, HttpRequestParser};

fn line(s: &str) -> LineOrError {
    LineOrError::Line(s.to_string())
}

#[test]
fn request_line_without_content_length() {
    // A GET with no Content-Length header parses to its method and path,
    // and no body decode is attempted at all.
    let lines = vec![line("GET /widgets/42 HTTP/1.1"), line("Host: example")];
    assert_eq!(HttpRequestParser::method(&lines), HttpRequestMethod::Get);
    assert_eq!(HttpRequestParser::path(&lines), "/widgets/42");
    assert_eq!(HttpRequestParser::content_length(&lines), 0);

    let req = HttpRequest::new(lines, "", None).unwrap();
    assert_eq!(req.route.method, HttpRequestMethod::Get);
    assert_eq!(req.route.path, "/widgets/42");
    assert!(req.body.body_type.is_none());
    assert!(req.body.body_params.is_none());
    assert!(!req.responded());
}

#[test]
fn method_names() {
    assert_eq!(HttpRequestParser::determine_method(&"GET /".to_string()), HttpRequestMethod::Get);
    assert_eq!(HttpRequestParser::determine_method(&"POST /".to_string()), HttpRequestMethod::Post);
    assert_eq!(HttpRequestParser::determine_method(&"PUT /".to_string()), HttpRequestMethod::Put);
    assert_eq!(
        HttpRequestParser::determine_method(&"PATCH /".to_string()),
        HttpRequestMethod::Patch
    );
    assert_eq!(
        HttpRequestParser::determine_method(&"DELETE /".to_string()),
        HttpRequestMethod::Delete
    );
    assert_eq!(
        HttpRequestParser::determine_method(&"BREW /".to_string()),
        HttpRequestMethod::BadRequest
    );
    assert_eq!(HttpRequestMethod::Get.to_str(), "GET");
    assert_eq!(HttpRequestMethod::BadRequest.to_str(), "BAD_REQUEST");
}

#[test]
fn method_is_the_whole_first_token() {
    // The first whitespace-separated token decides; a token that merely
    // begins with a method name is unrecognized.
    assert_eq!(
        HttpRequestParser::determine_method(&"GETX /x HTTP/1.1".to_string()),
        HttpRequestMethod::BadRequest
    );
    assert_eq!(
        HttpRequestParser::determine_method(&"POSTAGE / HTTP/1.1".to_string()),
        HttpRequestMethod::BadRequest
    );
    // A bare method name is its own token.
    assert_eq!(HttpRequestParser::determine_method(&"GET".to_string()), HttpRequestMethod::Get);
    // Leading whitespace is skipped when the token is taken.
    assert_eq!(
        HttpRequestParser::determine_method(&"  DELETE /x".to_string()),
        HttpRequestMethod::Delete
    );
    assert_eq!(
        HttpRequestParser::determine_method(&"".to_string()),
        HttpRequestMethod::BadRequest
    );
}

#[test]
fn tokens_split_on_unicode_whitespace() {
    // Token splitting recognizes the same whitespace set as the standard
    // library, non-ASCII spaces included.
    assert_eq!(
        HttpRequestParser::determine_method(&"GET\u{A0}/nb HTTP/1.1".to_string()),
        HttpRequestMethod::Get
    );
    assert_eq!(HttpRequestParser::determine_path("GET\u{2009}/thin\u{2009}HTTP/1.1"), "/thin");
}

#[test]
fn header_lines_collect_until_terminator_or_failure() {
    let mut lines: Vec<LineOrError> = Vec::new();
    // Ordinary lines are kept and collection goes on.
    assert!(!m_server::http::request::collect_header_line(
        &mut lines,
        Ok("GET / HTTP/1.1".to_string())
    ));
    assert!(!m_server::http::request::collect_header_line(&mut lines, Ok("Host: x".to_string())));
    // The empty terminator is dropped and stops collection.
    assert!(m_server::http::request::collect_header_line(&mut lines, Ok(String::new())));
    assert_eq!(lines.len(), 2);

    // A decode failure is kept as a marker and stops collection.
    let mut failed: Vec<LineOrError> = Vec::new();
    assert!(m_server::http::request::collect_header_line(
        &mut failed,
        Err("invalid utf-8".to_string())
    ));
    assert_eq!(failed.len(), 1);
    assert!(matches!(&failed[0], LineOrError::Error(e) if e == "invalid utf-8"));
}

#[test]
fn method_of_empty_or_failed_header() {
    let no_lines: Vec<LineOrError> = Vec::new();
    assert_eq!(HttpRequestParser::method(&no_lines), HttpRequestMethod::BadRequest);
    let failed = vec![LineOrError::Error("bad bytes".to_string())];
    assert_eq!(HttpRequestParser::method(&failed), HttpRequestMethod::BadRequest);
    assert_eq!(HttpRequestParser::path(&failed), "/");
}

#[test]
fn path_defaults_to_slash() {
    assert_eq!(HttpRequestParser::determine_path("GET"), "/");
    assert_eq!(HttpRequestParser::determine_path(""), "/");
    assert_eq!(HttpRequestParser::determine_path("GET /a/b HTTP/1.1"), "/a/b");
    assert_eq!(HttpRequestParser::determine_path("GET   /spaced   HTTP/1.1"), "/spaced");
    let no_lines: Vec<LineOrError> = Vec::new();
    assert_eq!(HttpRequestParser::path(&no_lines), "/");
}

#[test]
fn content_length_values() {
    let lines = vec![line("GET / HTTP/1.1"), line("Content-Length: 42")];
    assert_eq!(HttpRequestParser::content_length(&lines), 42);

    // Internal spaces are stripped before parsing.
    let spaced = vec![line("Content-Length:  4 2 ")];
    assert_eq!(HttpRequestParser::content_length(&spaced), 42);

    // An unparsable value is length zero, not an error.
    let bad = vec![line("Content-Length: ten")];
    assert_eq!(HttpRequestParser::content_length(&bad), 0);

    // A value too large for the machine is unparsable.
    let huge = vec![line("Content-Length: 99999999999999999999999999")];
    assert_eq!(HttpRequestParser::content_length(&huge), 0);

    // A leading plus sign is accepted.
    let plus = vec![line("Content-Length: +7")];
    assert_eq!(HttpRequestParser::content_length(&plus), 7);

    // The first matching header wins.
    let twice = vec![line("Content-Length: 1"), line("Content-Length: 2")];
    assert_eq!(HttpRequestParser::content_length(&twice), 1);

    let none = vec![line("GET / HTTP/1.1")];
    assert_eq!(HttpRequestParser::content_length(&none), 0);
}

#[test]
fn parse_failure_carries_reason() {
    let lines = vec![
        line("POST /x HTTP/1.1"),
        line("Content-Type: text/plain"),
        line("Content-Length: 3"),
    ];
    let failure = HttpRequest::new(lines, "abc", None).err().unwrap();
    assert_eq!(failure.fail_reason, "Bad request! Unrecognized Content-Type: text/plain");
}

#[test]
fn header_decode_error_is_a_parse_failure() {
    let lines = vec![line("POST /x HTTP/1.1"), LineOrError::Error("invalid utf-8".to_string())];
    let failure = HttpRequest::new(lines, "", None).err().unwrap();
    assert_eq!(failure.fail_reason, "invalid utf-8");
}

#[test]
fn peer_address_is_kept() {
    let lines = vec![line("GET / HTTP/1.1")];
    let req = HttpRequest::new(lines, "", Some("127.0.0.1".to_string())).unwrap();
    assert_eq!(req.peer_addr.as_deref(), Some("127.0.0.1"));
    assert_eq!(req.route.path, "/");
}
