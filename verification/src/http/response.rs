//! Response text construction.
//!
//! A response is a status line `HTTP/1.1 <status-text>`, a fixed `Server:`
//! line, a fixed `Content-Type: application/json` line, and the
//! terminating blank line, optionally followed by a body appended by the
//! caller.

use vstd::prelude::*;

verus! {

/// The full response text for a given status text.
pub open spec fn spec_status_message(status: Seq<char>) -> Seq<char> {
    "HTTP/1.1 "@ + status + "\n"@ + "Server: m_server/0.1.4-alpha"@ + "\n"@
        + "Content-Type: application/json"@ + "\r\n\r\n"@
}

/// The text written back to a connection, headers included.
pub struct HttpResponse {
    pub response: String,
}

impl HttpResponse {
    /// Wrap an already-built response text.
    pub fn new(response: String) -> (r: HttpResponse)
        ensures
            r.response@ == response@,
    {
        HttpResponse { response }
    }

    /// The `400 Bad Request` response.
    pub fn bad_request() -> (r: HttpResponse)
        ensures
            r.response@ == spec_status_message("400 Bad Request"@),
    {
        let response_str: String = Self::status_message("400 Bad Request");
        HttpResponse::new(response_str)
    }

    /// The `200 OK` response.
    pub fn ok() -> (r: HttpResponse)
        ensures
            r.response@ == spec_status_message("200 OK"@),
    {
        let response_str: String = Self::status_message("200 OK");
        HttpResponse::new(response_str)
    }

    /// The `404 Not Found` response.
    pub fn not_found() -> (r: HttpResponse)
        ensures
            r.response@ == spec_status_message("404 Not Found"@),
    {
        let response_str: String = Self::status_message("404 Not Found");
        HttpResponse::new(response_str)
    }

    /// The `201 Created` response.
    pub fn created() -> (r: HttpResponse)
        ensures
            r.response@ == spec_status_message("201 Created"@),
    {
        let response_str: String = Self::status_message("201 Created");
        HttpResponse::new(response_str)
    }

    /// The `202 Accepted` response, written with the bare status text.
    pub fn accepted() -> (r: HttpResponse)
        ensures
            r.response@ == spec_status_message("Accepted"@),
    {
        let response_str: String = Self::status_message("Accepted");
        HttpResponse::new(response_str)
    }

    /// The `500 Internal Server Error` response.
    pub fn error() -> (r: HttpResponse)
        ensures
            r.response@ == spec_status_message("500 Internal Server Error"@),
    {
        let response_str: String = Self::status_message("500 Internal Server Error");
        HttpResponse::new(response_str)
    }

    /// Assemble the response text around one status text.
    pub fn status_message(status_code: &str) -> (r: String)
        ensures
            r@ == spec_status_message(status_code@),
    {
        let mut r = String::new();
        r.append("HTTP/1.1 ");
        r.append(status_code);
        r.append("\n");
        r.append("Server: m_server/0.1.4-alpha");
        r.append("\n");
        r.append("Content-Type: application/json");
        r.append("\r\n\r\n");
        r
    }

    /// The response text with `body` appended, as written for a response
    /// that carries a body.
    pub fn with_body(&self, body: &str) -> (r: String)
        ensures
            r@ == self.response@ + body@,
    {
        let mut r = String::new();
        r.append(self.response.as_str());
        r.append(body);
        r
    }
}

} // verus!
