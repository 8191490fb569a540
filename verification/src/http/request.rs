//! Request-line and header parsing, and the request handle.
//!
//! The first header line carries the method and the path; the header
//! section may carry a `Content-Length:` line whose value bounds the body.
//! A parsed request owns its route and decoded body and enforces the
//! at-most-once response discipline.

use vstd::prelude::*;

use crate::LineOrError;
use crate::http::response::HttpResponse;
use crate::text::{is_prefix, is_ws};

verus! {

/// The request methods the engine recognizes.  `BadRequest` stands for a
/// missing or unrecognized request line; it is an ordinary value, not an
/// error channel.
#[derive(Hash, PartialEq, Eq, Structural, Debug, Clone, Copy)]
pub enum HttpRequestMethod {
    Get,
    Post,
    Put,
    Delete,
    Patch,
    BadRequest,
}

impl HttpRequestMethod {
    /// The method's wire name.
    pub open spec fn spec_name(&self) -> Seq<char> {
        match self {
            HttpRequestMethod::Get => "GET"@,
            HttpRequestMethod::Put => "PUT"@,
            HttpRequestMethod::Patch => "PATCH"@,
            HttpRequestMethod::Post => "POST"@,
            HttpRequestMethod::Delete => "DELETE"@,
            HttpRequestMethod::BadRequest => "BAD_REQUEST"@,
        }
    }

    /// The method's wire name.
    pub fn to_str(&self) -> (r: &'static str)
        ensures
            r@ == self.spec_name(),
    {
        match self {
            HttpRequestMethod::Get => "GET",
            HttpRequestMethod::Put => "PUT",
            HttpRequestMethod::Patch => "PATCH",
            HttpRequestMethod::Post => "POST",
            HttpRequestMethod::Delete => "DELETE",
            HttpRequestMethod::BadRequest => "BAD_REQUEST",
        }
    }
}

/// The first whitespace-separated token of `s`; empty when `s` holds
/// only whitespace.
pub open spec fn spec_first_token(s: Seq<char>) -> Seq<char> {
    let a = idx_non_ws(s, 0);
    s.subrange(a, idx_ws(s, a))
}

/// The method named by a request line: its first whitespace-separated
/// token decides, and an unrecognized or missing token is `BadRequest`.
pub open spec fn spec_method_of_line(line: Seq<char>) -> HttpRequestMethod {
    let t = spec_first_token(line);
    if t == "GET"@ {
        HttpRequestMethod::Get
    } else if t == "POST"@ {
        HttpRequestMethod::Post
    } else if t == "PUT"@ {
        HttpRequestMethod::Put
    } else if t == "PATCH"@ {
        HttpRequestMethod::Patch
    } else if t == "DELETE"@ {
        HttpRequestMethod::Delete
    } else {
        HttpRequestMethod::BadRequest
    }
}

/// The method of a header section: read from the first entry, which must
/// be a decoded line.
pub open spec fn spec_method(lines: Seq<LineOrError>) -> HttpRequestMethod {
    if lines.len() == 0 {
        HttpRequestMethod::BadRequest
    } else {
        match lines[0] {
            LineOrError::Line(l) => spec_method_of_line(l@),
            LineOrError::Error(_) => HttpRequestMethod::BadRequest,
        }
    }
}

/// The first index at or after `from` holding a non-whitespace character,
/// or the length when there is none.
pub open spec fn idx_non_ws(s: Seq<char>, from: int) -> int
    decreases s.len() - from,
{
    if from >= s.len() {
        s.len() as int
    } else if !is_ws(s[from]) {
        from
    } else {
        idx_non_ws(s, from + 1)
    }
}

/// The first index at or after `from` holding a whitespace character, or
/// the length when there is none.
pub open spec fn idx_ws(s: Seq<char>, from: int) -> int
    decreases s.len() - from,
{
    if from >= s.len() {
        s.len() as int
    } else if is_ws(s[from]) {
        from
    } else {
        idx_ws(s, from + 1)
    }
}

/// The second whitespace-separated token of `s`, when `s` has one.
pub open spec fn spec_second_token(s: Seq<char>) -> Option<Seq<char>> {
    let a = idx_non_ws(s, 0);
    let b = idx_ws(s, a);
    let c = idx_non_ws(s, b);
    if c >= s.len() {
        None
    } else {
        Some(s.subrange(c, idx_ws(s, c)))
    }
}

/// The path carried by a request line: its second token, with `/` as the
/// default when the line has fewer than two tokens.
pub open spec fn spec_path_of_line(line: Seq<char>) -> Seq<char> {
    match spec_second_token(line) {
        Some(t) => t,
        None => "/"@,
    }
}

/// The path of a header section: read from the first entry when it is a
/// decoded line, `/` otherwise.
pub open spec fn spec_path(lines: Seq<LineOrError>) -> Seq<char> {
    if lines.len() == 0 {
        "/"@
    } else {
        match lines[0] {
            LineOrError::Line(l) => spec_path_of_line(l@),
            LineOrError::Error(_) => "/"@,
        }
    }
}

/// Reads the request line and headers of a request.
pub struct HttpRequestParser;

impl HttpRequestParser {
    /// The method of the request whose header section is `raw`.
    pub fn method(raw: &Vec<LineOrError>) -> (r: HttpRequestMethod)
        ensures
            r == spec_method(raw@),
    {
        if raw.len() == 0 {
            HttpRequestMethod::BadRequest
        } else {
            match &raw[0] {
                LineOrError::Line(line) => Self::determine_method(line),
                LineOrError::Error(_) => HttpRequestMethod::BadRequest,
            }
        }
    }

    /// The path of the request whose header section is `raw`.
    pub fn path(raw: &Vec<LineOrError>) -> (r: String)
        ensures
            r@ == spec_path(raw@),
    {
        if raw.len() == 0 {
            "/".to_owned()
        } else {
            match &raw[0] {
                LineOrError::Line(line) => Self::determine_path(line.as_str()),
                LineOrError::Error(_) => "/".to_owned(),
            }
        }
    }

    /// The second whitespace-separated token of a request line, `/` when
    /// the line has fewer than two tokens.
    pub fn determine_path(line: &str) -> (r: String)
        ensures
            r@ == spec_path_of_line(line@),
    {
        let v = crate::text::chars_of(line);
        let a = scan_non_ws(&v, 0);
        let b = scan_ws(&v, a);
        let c = scan_non_ws(&v, b);
        if c == v.len() {
            "/".to_owned()
        } else {
            let d = scan_ws(&v, c);
            let tok = crate::text::vec_subrange(&v, c, d);
            crate::text::string_from_chars(&tok)
        }
    }

    /// The method a request line's first token names, `BadRequest` when
    /// the token is unrecognized or the line has none.
    pub fn determine_method(line: &String) -> (r: HttpRequestMethod)
        ensures
            r == spec_method_of_line(line@),
    {
        let v = crate::text::chars_of(line.as_str());
        let a = scan_non_ws(&v, 0);
        let b = scan_ws(&v, a);
        let tok = crate::text::vec_subrange(&v, a, b);
        if crate::text::chars_eq(&tok, &crate::text::chars_of("GET")) {
            HttpRequestMethod::Get
        } else if crate::text::chars_eq(&tok, &crate::text::chars_of("POST")) {
            HttpRequestMethod::Post
        } else if crate::text::chars_eq(&tok, &crate::text::chars_of("PUT")) {
            HttpRequestMethod::Put
        } else if crate::text::chars_eq(&tok, &crate::text::chars_of("PATCH")) {
            HttpRequestMethod::Patch
        } else if crate::text::chars_eq(&tok, &crate::text::chars_of("DELETE")) {
            HttpRequestMethod::Delete
        } else {
            HttpRequestMethod::BadRequest
        }
    }
}

/// One step of header-line collection, deciding for each line the
/// connection yields whether it is kept and whether collection stops: a
/// decoded line is appended unless it is the empty terminator, which is
/// dropped and stops collection; a decode failure is appended as a
/// failure marker and also stops collection.  The embedding program
/// reads the lines and calls this until it says to stop.
pub fn collect_header_line(lines: &mut Vec<LineOrError>, read: Result<String, String>) -> (stop:
    bool)
    ensures
        match read {
            Result::Ok(l) => if l@.len() == 0 {
                stop && final(lines)@ == old(lines)@
            } else {
                !stop && final(lines)@ == old(lines)@.push(LineOrError::Line(l))
            },
            Result::Err(e) => stop && final(lines)@ == old(lines)@.push(LineOrError::Error(e)),
        },
{
    match read {
        Result::Ok(l) => {
            if l.as_str().is_empty() {
                true
            } else {
                lines.push(LineOrError::Line(l));
                false
            }
        },
        Result::Err(e) => {
            lines.push(LineOrError::Error(e));
            true
        },
    }
}

/// `s` with every space character removed.
pub open spec fn remove_spaces(s: Seq<char>) -> Seq<char>
    decreases s.len(),
{
    if s.len() == 0 {
        Seq::empty()
    } else if s[0] == ' ' {
        remove_spaces(s.subrange(1, s.len() as int))
    } else {
        seq![s[0]] + remove_spaces(s.subrange(1, s.len() as int))
    }
}

/// A decimal digit character.
pub open spec fn is_digit(c: char) -> bool {
    0x30 <= c as u32 && c as u32 <= 0x39
}

/// Every character of `s` is a decimal digit.
pub open spec fn all_digits(s: Seq<char>) -> bool {
    forall|i: int| 0 <= i < s.len() ==> is_digit(#[trigger] s[i])
}

/// The number the digit characters of `s` write in decimal.
pub open spec fn digits_val(s: Seq<char>) -> int
    decreases s.len(),
{
    if s.len() == 0 {
        0
    } else {
        digits_val(s.drop_last()) * 10 + (s.last() as u32 - 0x30)
    }
}

/// The unsigned number `s` writes: an optional leading `+`, then decimal
/// digits only, with a value that fits in `usize`.
pub open spec fn spec_parse_usize(s: Seq<char>) -> Option<usize> {
    let body = if s.len() > 0 && s[0] == '+' {
        s.subrange(1, s.len() as int)
    } else {
        s
    };
    if body.len() == 0 || !all_digits(body) {
        None
    } else if digits_val(body) <= usize::MAX {
        Some(digits_val(body) as usize)
    } else {
        None
    }
}

/// The length a `Content-Length:` line declares: the text after the colon
/// with spaces stripped, read as an unsigned number, zero when unreadable.
pub open spec fn spec_cl_of_line(l: Seq<char>) -> usize {
    match spec_parse_usize(remove_spaces(l.subrange("Content-Length:"@.len() as int, l.len() as int))) {
        Some(v) => v,
        None => 0,
    }
}

/// The declared body length of a header section: the value of the first
/// entry beginning with `Content-Length:`, zero when there is none.
pub open spec fn spec_content_length(lines: Seq<LineOrError>) -> usize
    decreases lines.len(),
{
    if lines.len() == 0 {
        0
    } else if is_prefix("Content-Length:"@, lines[0].text_view()) {
        spec_cl_of_line(lines[0].text_view())
    } else {
        spec_content_length(lines.subrange(1, lines.len() as int))
    }
}

impl HttpRequestParser {
    /// The body length the header section declares.
    pub fn content_length(raw: &Vec<LineOrError>) -> (r: usize)
        ensures
            r == spec_content_length(raw@),
    {
        let n = raw.len();
        let mut k: usize = 0;
        proof {
            assert(raw@.subrange(0, n as int) =~= raw@);
        }
        while k < n
            invariant
                k <= n,
                n == raw@.len(),
                spec_content_length(raw@) == spec_content_length(
                    raw@.subrange(k as int, n as int),
                ),
            decreases n - k,
        {
            let ghost rest = raw@.subrange(k as int, n as int);
            let entry = &raw[k];
            let v = crate::text::chars_of(entry.text().as_str());
            if crate::text::starts_with_str(&v, "Content-Length:") {
                proof {
                    reveal_strlit("Content-Length:");
                    assert(rest[0] == raw@[k as int]);
                }
                let sub = crate::text::vec_subrange(&v, 15, v.len());
                let cleaned = remove_spaces_exec(&sub);
                let parsed = parse_usize_exec(&cleaned);
                match parsed {
                    Some(val) => {
                        return val;
                    },
                    None => {
                        return 0;
                    },
                }
            }
            proof {
                assert(rest[0] == raw@[k as int]);
                assert(rest.subrange(1, rest.len() as int) =~= raw@.subrange(k + 1, n as int));
            }
            k = k + 1;
        }
        proof {
            assert(raw@.subrange(n as int, n as int) =~= Seq::<LineOrError>::empty());
        }
        0
    }
}

/// `s` with every space character removed.
fn remove_spaces_exec(s: &Vec<char>) -> (r: Vec<char>)
    ensures
        r@ == remove_spaces(s@),
{
    let len = s.len();
    let mut out: Vec<char> = Vec::new();
    let mut i: usize = 0;
    proof {
        assert(s@.subrange(0, len as int) =~= s@);
        assert(out@ + remove_spaces(s@) =~= remove_spaces(s@));
    }
    while i < len
        invariant
            i <= len,
            len == s@.len(),
            remove_spaces(s@) == out@ + remove_spaces(s@.subrange(i as int, len as int)),
        decreases len - i,
    {
        let ghost rest = s@.subrange(i as int, len as int);
        let ghost pre = out@;
        let c = s[i];
        proof {
            assert(rest.subrange(1, rest.len() as int) =~= s@.subrange(i + 1, len as int));
        }
        if c != ' ' {
            out.push(c);
            proof {
                assert(remove_spaces(rest) == seq![c] + remove_spaces(
                    s@.subrange(i + 1, len as int),
                ));
                assert(pre + (seq![c] + remove_spaces(s@.subrange(i + 1, len as int))) =~= (pre
                    + seq![c]) + remove_spaces(s@.subrange(i + 1, len as int)));
            }
        }
        i = i + 1;
    }
    proof {
        assert(s@.subrange(len as int, len as int) =~= Seq::<char>::empty());
        assert(out@ =~= remove_spaces(s@));
    }
    out
}

/// Every digit of `s` keeps the value of its prefixes: reading more
/// digits never shrinks the written number.
proof fn lemma_digits_prefix_mono(s: Seq<char>, j: int)
    requires
        all_digits(s),
        0 <= j <= s.len(),
    ensures
        digits_val(s) >= 0,
        digits_val(s.subrange(0, j)) <= digits_val(s),
    decreases s.len(),
{
    if s.len() == 0 {
        assert(s.subrange(0, j) =~= s);
    } else {
        let head = s.drop_last();
        assert(all_digits(head));
        lemma_digits_prefix_mono(head, if j <= head.len() {
            j
        } else {
            head.len() as int
        });
        assert(digits_val(head) >= 0);
        assert(s.last() as u32 >= 0x30);
        if j <= head.len() {
            assert(s.subrange(0, j) =~= head.subrange(0, j));
        } else {
            assert(s.subrange(0, j) =~= s);
        }
    }
}

/// Read `s` as an unsigned decimal number with an optional leading `+`.
fn parse_usize_exec(s: &Vec<char>) -> (r: Option<usize>)
    ensures
        r == spec_parse_usize(s@),
{
    let len = s.len();
    let mut start: usize = 0;
    if len > 0 && s[0] == '+' {
        start = 1;
    }
    let ghost body = if s@.len() > 0 && s@[0] == '+' {
        s@.subrange(1, s@.len() as int)
    } else {
        s@
    };
    proof {
        assert(body =~= s@.subrange(start as int, len as int));
    }
    if len == start {
        assert(body.len() == 0);
        return None;
    }
    let mut acc: usize = 0;
    let mut i: usize = start;
    proof {
        assert(body.subrange(0, 0) =~= Seq::<char>::empty());
    }
    while i < len
        invariant
            start <= i <= len,
            len == s@.len(),
            start <= 1,
            body == s@.subrange(start as int, len as int),
            body == (if s@.len() > 0 && s@[0] == '+' {
                s@.subrange(1, s@.len() as int)
            } else {
                s@
            }),
            body.len() > 0,
            all_digits(body.subrange(0, i - start)),
            acc == digits_val(body.subrange(0, i - start)),
        decreases len - i,
    {
        let c = s[i];
        let cv = c as u32;
        let ghost done = body.subrange(0, i - start);
        proof {
            assert(body[i - start] == s@[i as int]);
        }
        if cv < 0x30 || cv > 0x39 {
            assert(!all_digits(body));
            return None;
        }
        let d = (cv - 0x30) as usize;
        let ghost done2 = body.subrange(0, i + 1 - start);
        proof {
            assert(done2.drop_last() =~= done);
            assert(done2.last() == s@[i as int]);
            assert(all_digits(done2));
        }
        let next = match acc.checked_mul(10) {
            Some(m) => m.checked_add(d),
            None => None,
        };
        match next {
            Some(nv) => {
                acc = nv;
                i = i + 1;
            },
            None => {
                // The digits read so far already exceed the machine range;
                // more digits only grow the value.
                proof {
                    assert(digits_val(done2) > usize::MAX);
                    if all_digits(body) {
                        lemma_digits_prefix_mono(body, i + 1 - start);
                        assert(digits_val(body) > usize::MAX);
                    }
                }
                return None;
            },
        }
    }
    proof {
        assert(body.subrange(0, len - start) =~= body);
    }
    Some(acc)
}

/// A request that could not be parsed, with the failure text.  The
/// connection itself stays with the embedding program, which writes the
/// Bad Request response to it.
#[derive(Debug)]
pub struct HttpRequestFailure {
    pub fail_reason: String,
}

/// A parsed request: the exclusive handle the matched handler receives.
/// The response flag moves to responded exactly once; every later
/// respond attempt produces no wire output.
pub struct HttpRequest {
    pub route: crate::router::HttpRoute,
    pub peer_addr: Option<String>,
    pub body: crate::http::shared::HttpHeaderBody,
    responded: bool,
}

/// How one respond attempt changes the handle: afterwards the handle has
/// always responded, and wire output is produced exactly when it had not
/// responded before.
pub open spec fn respond_transition(before: bool, after: bool, wrote: bool) -> bool {
    after && wrote == !before
}

/// Law: of two consecutive respond attempts on a handle that has not yet
/// responded, exactly the first produces wire output.
pub proof fn lemma_respond_at_most_once(r0: bool, r1: bool, w1: bool, r2: bool, w2: bool)
    requires
        !r0,
        respond_transition(r0, r1, w1),
        respond_transition(r1, r2, w2),
    ensures
        w1,
        !w2,
{
}

impl HttpRequest {
    /// Whether a response has been produced for this request.
    pub closed spec fn spec_responded(&self) -> bool {
        self.responded
    }

    /// The route the request named.
    pub closed spec fn spec_route(&self) -> crate::router::HttpRoute {
        self.route
    }

    /// The peer address, when it could be read.
    pub closed spec fn spec_peer_addr(&self) -> Option<String> {
        self.peer_addr
    }

    /// The header section and decoded body.
    pub closed spec fn spec_body(&self) -> crate::http::shared::HttpHeaderBody {
        self.body
    }

    /// Parse a request from its header section and its body text, already
    /// read by the embedding program.  A header decode failure or an
    /// unrecognized content type is returned as a failure carrying the
    /// reason; the connection is never dropped silently.
    pub fn new(lines: Vec<LineOrError>, body: &str, peer_addr: Option<String>) -> (r: Result<
        HttpRequest,
        HttpRequestFailure,
    >)
        ensures
            match crate::http::shared::spec_classify(lines@) {
                crate::http::shared::BodyClass::Failed(m) => match r {
                    Result::Err(f) => f.fail_reason@ == m,
                    Result::Ok(_) => false,
                },
                _ => match r {
                    Result::Ok(req) => {
                        &&& req.spec_route().method == spec_method(lines@)
                        &&& req.spec_route().path@ == spec_path(lines@)
                        &&& req.spec_peer_addr() == peer_addr
                        &&& !req.spec_responded()
                        &&& req.spec_body().lines == lines
                        &&& req.spec_body().wf()
                        &&& crate::http::shared::header_body_ok(
                            req.spec_body(),
                            lines@,
                            body@,
                            spec_content_length(lines@),
                        )
                    },
                    Result::Err(_) => false,
                },
            },
    {
        let content_length = HttpRequestParser::content_length(&lines);
        let method = HttpRequestParser::method(&lines);
        let path = HttpRequestParser::path(&lines);
        match crate::http::shared::HttpHeaderBody::new(lines, body, content_length) {
            Result::Ok(header_body) => Result::Ok(
                HttpRequest {
                    route: crate::router::HttpRoute { method, path },
                    peer_addr,
                    body: header_body,
                    responded: false,
                },
            ),
            Result::Err(reason) => Result::Err(HttpRequestFailure { fail_reason: reason }),
        }
    }

    /// Whether a response has been produced for this request.
    pub fn responded(&self) -> (r: bool)
        ensures
            r == self.spec_responded(),
    {
        self.responded
    }

    /// Produce the wire text for `http_res`, at most once per request: a
    /// handle that has already responded produces nothing and is left
    /// unchanged.  The embedding program writes the returned text to the
    /// connection.
    pub fn respond(&mut self, http_res: HttpResponse) -> (wire: Option<String>)
        ensures
            respond_transition(
                old(self).spec_responded(),
                final(self).spec_responded(),
                wire is Some,
            ),
            old(self).spec_responded() ==> wire is None && *final(self) == *old(self),
            !old(self).spec_responded() ==> match wire {
                Option::Some(w) => w@ == http_res.response@,
                Option::None => false,
            },
            final(self).spec_route() == old(self).spec_route(),
            final(self).spec_peer_addr() == old(self).spec_peer_addr(),
            final(self).spec_body() == old(self).spec_body(),
    {
        if self.responded {
            return Option::None;
        }
        self.responded = true;
        Option::Some(http_res.response)
    }

    /// Like `respond`, with `body` appended to the response text.
    pub fn respond_with_body(&mut self, http_res: &HttpResponse, body: &str) -> (wire: Option<
        String,
    >)
        ensures
            respond_transition(
                old(self).spec_responded(),
                final(self).spec_responded(),
                wire is Some,
            ),
            old(self).spec_responded() ==> wire is None && *final(self) == *old(self),
            !old(self).spec_responded() ==> match wire {
                Option::Some(w) => w@ == http_res.response@ + body@,
                Option::None => false,
            },
            final(self).spec_route() == old(self).spec_route(),
            final(self).spec_peer_addr() == old(self).spec_peer_addr(),
            final(self).spec_body() == old(self).spec_body(),
    {
        if self.responded {
            return Option::None;
        }
        self.responded = true;
        Option::Some(http_res.with_body(body))
    }
}

/// The first index at or after `from` holding a non-whitespace character.
fn scan_non_ws(v: &Vec<char>, from: usize) -> (r: usize)
    requires
        from <= v@.len(),
    ensures
        r == idx_non_ws(v@, from as int),
        from <= r <= v@.len(),
        r < v@.len() ==> !is_ws(v@[r as int]),
{
    let mut i: usize = from;
    let len = v.len();
    while i < len && crate::text::is_ws_exec(v[i])
        invariant
            from <= i <= len,
            len == v@.len(),
            idx_non_ws(v@, from as int) == idx_non_ws(v@, i as int),
        decreases len - i,
    {
        i = i + 1;
    }
    i
}

/// The first index at or after `from` holding a whitespace character.
fn scan_ws(v: &Vec<char>, from: usize) -> (r: usize)
    requires
        from <= v@.len(),
    ensures
        r == idx_ws(v@, from as int),
        from <= r <= v@.len(),
{
    let mut i: usize = from;
    let len = v.len();
    while i < len && !crate::text::is_ws_exec(v[i])
        invariant
            from <= i <= len,
            len == v@.len(),
            idx_ws(v@, from as int) == idx_ws(v@, i as int),
        decreases len - i,
    {
        i = i + 1;
    }
    i
}

} // verus!
