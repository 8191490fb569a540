use m_server::LineOrError;
use m_server::http::shared::{HttpBodyType, HttpHeaderBody};

fn line(s: &str) -> LineOrError {
    LineOrError::Line(s.to_string())
}

#[test]
fn url_encoded_two_pairs() {
    // Content-Length 7, body `a=1&b=2` decodes to {a: "1", b: "2"}.
    let lines = vec![
        line("POST /form HTTP/1.1"),
        line("Content-Type: application/x-www-form-urlencoded"),
        line("Content-Length: 7"),
    ];
    let built = HttpHeaderBody::new(lines, "a=1&b=2", 7).unwrap();
    assert!(built.body_type == Some(HttpBodyType::UrlEncoded));
    let params = built.body_params.unwrap();
    assert_eq!(params.len(), 2);
    assert_eq!(params.get("a").unwrap().as_str(), "1");
    assert_eq!(params.get("b").unwrap().as_str(), "2");
}

#[test]
fn url_encoded_percent_decodes_keys_and_values() {
    let params = HttpHeaderBody::gen_params_url_encoded("a%20b=c%21&x=%80");
    assert_eq!(params.get("a b").unwrap().as_str(), "c!");
    assert_eq!(params.get("x").unwrap().as_str(), "\u{20AC}");
}

#[test]
fn url_encoded_segment_without_equals_is_dropped() {
    let params = HttpHeaderBody::gen_params_url_encoded("noequals&a=1");
    assert_eq!(params.len(), 1);
    assert_eq!(params.get("a").unwrap().as_str(), "1");
    assert!(params.get("noequals").is_none());
}

#[test]
fn url_encoded_duplicate_key_overwrites() {
    let params = HttpHeaderBody::gen_params_url_encoded("a=1&a=2");
    assert_eq!(params.len(), 1);
    assert_eq!(params.get("a").unwrap().as_str(), "2");
}

#[test]
fn url_encoded_trailing_pair_needs_key_and_value() {
    let params = HttpHeaderBody::gen_params_url_encoded("a=1&b=");
    assert_eq!(params.len(), 1);
    assert!(params.get("b").is_none());
}

#[test]
fn multipart_recovers_after_malformed_part() {
    // The malformed part contributes nothing; the well-formed part's pair
    // is present and correct.
    let body = "--X\n\
                bogus-disposition-line\n\
                ignored content\n\
                --X\n\
                Content-Disposition: form-data; name=\"ok\"\n\
                \n\
                fine\n\
                --X\n";
    let params = HttpHeaderBody::gen_params_form_data(body, "X");
    assert_eq!(params.len(), 1);
    assert!(params.get("bogus").is_none());
    assert_eq!(params.get("ok").unwrap().as_str(), "fine");
}

#[test]
fn multipart_two_parts_and_joined_lines() {
    let body = "--B\n\
                Content-Disposition: form-data; name=\"first\"\n\
                \n\
                one\n\
                two\n\
                --B\n\
                Content-Disposition: form-data; name=\"second\"\n\
                \n\
                only\n\
                --B\n";
    let params = HttpHeaderBody::gen_params_form_data(body, "B");
    assert_eq!(params.len(), 2);
    assert_eq!(params.get("first").unwrap().as_str(), "one\ntwo");
    assert_eq!(params.get("second").unwrap().as_str(), "only");
}

#[test]
fn multipart_empty_value_is_dropped() {
    let body = "--B\n\
                Content-Disposition: form-data; name=\"empty\"\n\
                \n\
                --B\n";
    let params = HttpHeaderBody::gen_params_form_data(body, "B");
    assert_eq!(params.len(), 0);
}

#[test]
fn multipart_text_after_last_newline_is_not_a_line() {
    let body = "--B\n\
                Content-Disposition: form-data; name=\"k\"\n\
                \n\
                seen\n\
                unterminated";
    let params = HttpHeaderBody::gen_params_form_data(body, "B");
    assert_eq!(params.get("k").unwrap().as_str(), "seen");
}

#[test]
fn unrecognized_content_type_is_bad_request() {
    // No parameter map is produced; the failure is surfaced instead.
    let lines = vec![
        line("POST / HTTP/1.1"),
        line("Content-Type: text/plain"),
        line("Content-Length: 5"),
    ];
    let err = HttpHeaderBody::new(lines, "hello", 5).err().unwrap();
    assert_eq!(err, "Bad request! Unrecognized Content-Type: text/plain");
}

#[test]
fn classification_extracts_boundary() {
    let lines = vec![line("Content-Type: multipart/form-data; boundary=XYZ")];
    let (ty, boundary) = HttpHeaderBody::classify(&lines).unwrap().unwrap();
    assert!(ty == HttpBodyType::FormData);
    assert_eq!(boundary.as_deref(), Some("XYZ"));
}

#[test]
fn classification_without_content_type() {
    let lines = vec![line("GET / HTTP/1.1"), line("Host: example")];
    assert!(HttpHeaderBody::classify(&lines).unwrap().is_none());
}

#[test]
fn classification_fails_on_header_error() {
    let lines = vec![LineOrError::Error("broken".to_string())];
    assert_eq!(HttpHeaderBody::classify(&lines).err().unwrap(), "broken");
}

#[test]
fn declared_zero_length_yields_no_map() {
    // A declared type with no declared body length produces no map at
    // all, distinguishing "no body" from "body present but empty".
    let lines = vec![line("Content-Type: application/x-www-form-urlencoded")];
    let built = HttpHeaderBody::new(lines, "", 0).unwrap();
    assert!(built.body_type == Some(HttpBodyType::UrlEncoded));
    assert!(built.body_params.is_none());
}

#[test]
fn multipart_body_through_header_record() {
    let lines = vec![
        line("POST /up HTTP/1.1"),
        line("Content-Type: multipart/form-data; boundary=Q"),
        line("Content-Length: 52"),
    ];
    let body = "--Q\nContent-Disposition: form-data; name=\"f\"\n\nv\n--Q\n";
    let built = HttpHeaderBody::new(lines, body, body.len()).unwrap();
    assert!(built.body_type == Some(HttpBodyType::FormData));
    let params = built.body_params.unwrap();
    assert_eq!(params.get("f").unwrap().as_str(), "v");
}

#[test]
fn body_type_names() {
    assert_eq!(HttpBodyType::FormData.to_str(), "multipart/form-data");
    assert_eq!(HttpBodyType::UrlEncoded.to_str(), "application/x-www-form-urlencoded");
}
