//! Content-Type classification and form-body decoding.
//!
//! The header section names the body's content type; a recognized type is
//! decoded into a parameter map, an unrecognized one is a hard failure.
//! Bodies are handled fully buffered: the embedding program reads exactly
//! the declared number of body bytes, materializes them as text, and
//! hands the text in; both decoders work on that text alone.

use vstd::prelude::*;

use crate::LineOrError;
use crate::params::ParamMap;
use crate::text::{contains_seq, is_prefix, trim_spec};

verus! {

/// The two supported body content types.
#[derive(Copy, Clone, PartialEq, Eq, Structural)]
pub enum HttpBodyType {
    FormData,
    UrlEncoded,
}

impl HttpBodyType {
    /// The content-type value prefix that names this body type.
    pub open spec fn spec_str(&self) -> Seq<char> {
        match self {
            HttpBodyType::FormData => "multipart/form-data"@,
            HttpBodyType::UrlEncoded => "application/x-www-form-urlencoded"@,
        }
    }

    /// The content-type value prefix that names this body type.
    pub fn to_str(&self) -> (r: &'static str)
        ensures
            r@ == self.spec_str(),
    {
        match self {
            HttpBodyType::FormData => "multipart/form-data",
            HttpBodyType::UrlEncoded => "application/x-www-form-urlencoded",
        }
    }
}

/// What the header section says about the body: no content type named, a
/// failure (a header decode error, or an unrecognized content type, with
/// the failure message), or a recognized type with its boundary when the
/// type carries one.
pub enum BodyClass {
    Absent,
    Failed(Seq<char>),
    Found(HttpBodyType, Option<Seq<char>>),
}

/// The failure message for an unrecognized content-type value.
pub open spec fn bad_ct_message(ct: Seq<char>) -> Seq<char> {
    "Bad request! Unrecognized Content-Type: "@ + ct
}

/// The boundary a `multipart/form-data` content-type value declares: what
/// follows the type name, without its `; boundary=` marker, trimmed.
pub open spec fn spec_boundary(ct: Seq<char>) -> Seq<char> {
    let after = trim_spec(ct.subrange("multipart/form-data"@.len() as int, ct.len() as int));
    let b = if is_prefix("; boundary="@, after) {
        after.subrange("; boundary="@.len() as int, after.len() as int)
    } else {
        after
    };
    trim_spec(b)
}

/// How one content-type value is classified.
pub open spec fn classify_value(ct: Seq<char>) -> BodyClass {
    if is_prefix("multipart/form-data"@, ct) {
        BodyClass::Found(HttpBodyType::FormData, Option::Some(spec_boundary(ct)))
    } else if is_prefix("application/x-www-form-urlencoded"@, ct) {
        BodyClass::Found(HttpBodyType::UrlEncoded, Option::None)
    } else {
        BodyClass::Failed(bad_ct_message(ct))
    }
}

/// How a header section is classified: the first `Content-Type: ` line
/// decides; a decode-failure entry seen first is itself a failure; a
/// section without either names no body.
pub open spec fn spec_classify(lines: Seq<LineOrError>) -> BodyClass
    decreases lines.len(),
{
    if lines.len() == 0 {
        BodyClass::Absent
    } else {
        match lines[0] {
            LineOrError::Line(l) => {
                if is_prefix("Content-Type: "@, l@) {
                    classify_value(
                        trim_spec(l@.subrange("Content-Type: "@.len() as int, l@.len() as int)),
                    )
                } else {
                    spec_classify(lines.subrange(1, lines.len() as int))
                }
            },
            LineOrError::Error(e) => BodyClass::Failed(e@),
        }
    }
}

/// Whether an executable classification result says what the
/// specification-level classification says.
pub open spec fn class_result_matches(
    r: Result<Option<(HttpBodyType, Option<String>)>, String>,
    c: BodyClass,
) -> bool {
    match c {
        BodyClass::Absent => match r {
            Result::Ok(o) => o is None,
            Result::Err(_) => false,
        },
        BodyClass::Failed(m) => match r {
            Result::Err(e) => e@ == m,
            Result::Ok(_) => false,
        },
        BodyClass::Found(t, b) => match r {
            Result::Ok(Option::Some((rt, rb))) => rt == t && match (b, rb) {
                (Option::Some(bs), Option::Some(rbs)) => rbs@ == bs,
                (Option::None, Option::None) => true,
                _ => false,
            },
            _ => false,
        },
    }
}

/// The accumulator the URL-encoded decoder walks the body with: the raw
/// key and value gathered so far, which of the two is being filled, and
/// the bindings already committed.
pub struct UrlState {
    pub key: Seq<char>,
    pub value: Seq<char>,
    pub is_key: bool,
    pub params: Map<Seq<char>, Seq<char>>,
}

/// The decoder's starting state.
pub open spec fn url_init() -> UrlState {
    UrlState { key: Seq::empty(), value: Seq::empty(), is_key: true, params: Map::empty() }
}

/// One character of a URL-encoded body: `=` switches the accumulator to
/// the value, `&` commits the pair (percent-decoding key and value, and
/// only when the segment had a `=`), anything else extends the side being
/// filled.
pub open spec fn url_step(st: UrlState, c: char) -> UrlState {
    if c == '=' {
        UrlState { is_key: false, ..st }
    } else if c == '&' {
        let p = if !st.is_key {
            st.params.insert(
                crate::http::decoder::spec_decode(st.key),
                crate::http::decoder::spec_decode(st.value),
            )
        } else {
            st.params
        };
        UrlState { key: Seq::empty(), value: Seq::empty(), is_key: true, params: p }
    } else if st.is_key {
        UrlState { key: st.key.push(c), ..st }
    } else {
        UrlState { value: st.value.push(c), ..st }
    }
}

/// The state after walking all of `s`.
pub open spec fn url_run(s: Seq<char>) -> UrlState
    decreases s.len(),
{
    if s.len() == 0 {
        url_init()
    } else {
        url_step(url_run(s.drop_last()), s.last())
    }
}

/// The parameter map a URL-encoded body decodes to: every committed pair,
/// and the final pending pair when its raw key and value are both
/// non-empty.
pub open spec fn spec_url_params(s: Seq<char>) -> Map<Seq<char>, Seq<char>> {
    let st = url_run(s);
    if st.key.len() > 0 && st.value.len() > 0 {
        st.params.insert(
            crate::http::decoder::spec_decode(st.key),
            crate::http::decoder::spec_decode(st.value),
        )
    } else {
        st.params
    }
}

impl HttpHeaderBody {
    /// Decode a URL-encoded body into its parameter map.
    pub fn gen_params_url_encoded(body: &str) -> (r: ParamMap)
        ensures
            r.wf(),
            r@ == spec_url_params(body@),
    {
        let s = crate::text::chars_of(body);
        let len = s.len();
        let mut key: Vec<char> = Vec::new();
        let mut value: Vec<char> = Vec::new();
        let mut is_key = true;
        let mut params = ParamMap::new();
        let mut i: usize = 0;
        proof {
            assert(s@.subrange(0, 0) =~= Seq::<char>::empty());
        }
        while i < len
            invariant
                i <= len,
                len == s@.len(),
                s@ == body@,
                params.wf(),
                ({
                    let st = url_run(s@.subrange(0, i as int));
                    key@ == st.key && value@ == st.value && is_key == st.is_key && params@
                        == st.params
                }),
            decreases len - i,
        {
            let ghost st_pre = url_run(s@.subrange(0, i as int));
            proof {
                let done2 = s@.subrange(0, i + 1);
                assert(done2.drop_last() =~= s@.subrange(0, i as int));
                assert(done2.last() == s@[i as int]);
            }
            let c = s[i];
            if c == '=' {
                is_key = false;
            } else if c == '&' {
                if !is_key {
                    let k_dec = crate::http::decoder::HttpUrlDecoder::decode_utf_8(
                        crate::text::string_from_chars(&key).as_str(),
                    );
                    let v_dec = crate::http::decoder::HttpUrlDecoder::decode_utf_8(
                        crate::text::string_from_chars(&value).as_str(),
                    );
                    params.insert(k_dec, v_dec);
                }
                key.clear();
                value.clear();
                is_key = true;
            } else if is_key {
                key.push(c);
            } else {
                value.push(c);
            }
            i = i + 1;
        }
        proof {
            assert(s@.subrange(0, len as int) =~= s@);
        }
        if key.len() > 0 && value.len() > 0 {
            let k_dec = crate::http::decoder::HttpUrlDecoder::decode_utf_8(
                crate::text::string_from_chars(&key).as_str(),
            );
            let v_dec = crate::http::decoder::HttpUrlDecoder::decode_utf_8(
                crate::text::string_from_chars(&value).as_str(),
            );
            params.insert(k_dec, v_dec);
        }
        params
    }
}

/// The line that opens a multipart block and names its parameter.
pub open spec fn cd_prefix() -> Seq<char> {
    "Content-Disposition: form-data; name=\""@
}

/// The accumulator the multipart decoder walks the body with: the
/// characters of the line being gathered, the pending key and value, the
/// two block flags, and the bindings already committed.
pub struct MpState {
    pub buffer: Seq<char>,
    pub key: Seq<char>,
    pub value: Seq<char>,
    pub in_boundary: bool,
    pub bad: bool,
    pub params: Map<Seq<char>, Seq<char>>,
}

/// The decoder's starting state.
pub open spec fn mp_init() -> MpState {
    MpState {
        buffer: Seq::empty(),
        key: Seq::empty(),
        value: Seq::empty(),
        in_boundary: false,
        bad: false,
        params: Map::empty(),
    }
}

/// The pending pair, committed when both its key and its value are
/// non-empty; a parameter whose value wound up empty is dropped.
pub open spec fn mp_commit(st: MpState) -> Map<Seq<char>, Seq<char>> {
    if st.key.len() > 0 && st.value.len() > 0 {
        st.params.insert(st.key, st.value)
    } else {
        st.params
    }
}

/// One trimmed line of a multipart body.  A line holding the boundary
/// commits the pending pair and opens a block; the line after a boundary
/// must carry the block's `Content-Disposition` and names the key, else
/// the block is bad and its lines are discarded; other lines of a good
/// block extend the value, newline-joined.
pub open spec fn mp_line(st: MpState, line: Seq<char>, bound: Seq<char>) -> MpState {
    if contains_seq(line, bound) {
        MpState {
            buffer: st.buffer,
            key: Seq::empty(),
            value: Seq::empty(),
            in_boundary: true,
            bad: false,
            params: mp_commit(st),
        }
    } else if st.in_boundary {
        let q = crate::text::idx_of(line, cd_prefix().len() as int, '"');
        if is_prefix(cd_prefix(), line) && q < line.len() {
            MpState {
                key: line.subrange(cd_prefix().len() as int, q),
                in_boundary: false,
                bad: false,
                ..st
            }
        } else {
            MpState { in_boundary: false, bad: true, ..st }
        }
    } else if !st.bad && line.len() > 0 {
        let joined = if st.value.len() > 0 {
            st.value + seq!['\n']
        } else {
            st.value
        };
        MpState { value: joined + line, ..st }
    } else if !st.bad {
        let joined = if st.value.len() > 0 {
            st.value + seq!['\n']
        } else {
            st.value
        };
        MpState { value: joined, ..st }
    } else {
        st
    }
}

/// One character of a multipart body: a newline processes the gathered
/// line, trimmed; any other character extends it.  Characters after the
/// last newline are never processed.
pub open spec fn mp_step(st: MpState, c: char, bound: Seq<char>) -> MpState {
    if c == '\n' {
        let st2 = mp_line(st, trim_spec(st.buffer), bound);
        MpState { buffer: Seq::empty(), ..st2 }
    } else {
        MpState { buffer: st.buffer.push(c), ..st }
    }
}

/// The state after walking all of `s`.
pub open spec fn mp_run(s: Seq<char>, bound: Seq<char>) -> MpState
    decreases s.len(),
{
    if s.len() == 0 {
        mp_init()
    } else {
        mp_step(mp_run(s.drop_last(), bound), s.last(), bound)
    }
}

/// The parameter map a multipart body decodes to: every pair committed at
/// a boundary, and the final pending pair when its key and value are both
/// non-empty.
pub open spec fn spec_mp_params(s: Seq<char>, bound: Seq<char>) -> Map<Seq<char>, Seq<char>> {
    mp_commit(mp_run(s, bound))
}

impl HttpHeaderBody {
    /// Decode a multipart body with the given boundary into its parameter
    /// map.
    pub fn gen_params_form_data(body: &str, boundary: &str) -> (r: ParamMap)
        ensures
            r.wf(),
            r@ == spec_mp_params(body@, boundary@),
    {
        let s = crate::text::chars_of(body);
        let bound = crate::text::chars_of(boundary);
        let len = s.len();
        let mut buffer: Vec<char> = Vec::new();
        let mut key: Vec<char> = Vec::new();
        let mut value: Vec<char> = Vec::new();
        let mut in_boundary = false;
        let mut bad = false;
        let mut params = ParamMap::new();
        let mut i: usize = 0;
        proof {
            assert(s@.subrange(0, 0) =~= Seq::<char>::empty());
        }
        while i < len
            invariant
                i <= len,
                len == s@.len(),
                s@ == body@,
                bound@ == boundary@,
                params.wf(),
                ({
                    let st = mp_run(s@.subrange(0, i as int), bound@);
                    buffer@ == st.buffer && key@ == st.key && value@ == st.value && in_boundary
                        == st.in_boundary && bad == st.bad && params@ == st.params
                }),
            decreases len - i,
        {
            let ghost st_pre = mp_run(s@.subrange(0, i as int), bound@);
            proof {
                let done2 = s@.subrange(0, i + 1);
                assert(done2.drop_last() =~= s@.subrange(0, i as int));
                assert(done2.last() == s@[i as int]);
            }
            let c = s[i];
            if c == '\n' {
                let line = crate::text::trim(&buffer);
                let ghost st2 = mp_line(st_pre, trim_spec(st_pre.buffer), bound@);
                if crate::text::contains_sub(&line, &bound) {
                    if key.len() > 0 && value.len() > 0 {
                        let k_str = crate::text::string_from_chars(&key);
                        let v_str = crate::text::string_from_chars(&value);
                        params.insert(k_str, v_str);
                    }
                    key.clear();
                    value.clear();
                    in_boundary = true;
                    bad = false;
                } else if in_boundary {
                    in_boundary = false;
                    proof {
                        reveal_strlit("Content-Disposition: form-data; name=\"");
                    }
                    if crate::text::starts_with_str(
                        &line,
                        "Content-Disposition: form-data; name=\"",
                    ) {
                        let q = crate::text::find_char(&line, 38, '"');
                        if q < line.len() {
                            key = crate::text::vec_subrange(&line, 38, q);
                            bad = false;
                        } else {
                            bad = true;
                        }
                    } else {
                        bad = true;
                    }
                } else if !bad && line.len() > 0 {
                    if value.len() > 0 {
                        value.push('\n');
                    }
                    let mut line_tail = line;
                    value.append(&mut line_tail);
                } else if !bad {
                    if value.len() > 0 {
                        value.push('\n');
                    }
                }
                buffer.clear();
                proof {
                    assert(buffer@ =~= Seq::<char>::empty());
                }
            } else {
                buffer.push(c);
            }
            i = i + 1;
        }
        proof {
            assert(s@.subrange(0, len as int) =~= s@);
        }
        if key.len() > 0 && value.len() > 0 {
            let k_str = crate::text::string_from_chars(&key);
            let v_str = crate::text::string_from_chars(&value);
            params.insert(k_str, v_str);
        }
        params
    }
}

/// The header section's lines, the declared body length, and what was
/// decoded from the body.
pub struct HttpHeaderBody {
    pub lines: Vec<LineOrError>,
    pub header_len: usize,
    pub body_type: Option<HttpBodyType>,
    pub body_params: Option<ParamMap>,
}

/// The view of an optional boundary string.
pub open spec fn opt_view(o: Option<String>) -> Option<Seq<char>> {
    match o {
        Option::Some(s) => Option::Some(s@),
        Option::None => Option::None,
    }
}

/// The parameter map a body of the given type and boundary decodes to.
/// A multipart body without a boundary decodes to nothing.
pub open spec fn spec_body_params(
    t: HttpBodyType,
    bnd: Option<Seq<char>>,
    body: Seq<char>,
) -> Map<Seq<char>, Seq<char>> {
    match t {
        HttpBodyType::UrlEncoded => spec_url_params(body),
        HttpBodyType::FormData => match bnd {
            Option::Some(b) => spec_mp_params(body, b),
            Option::None => Map::empty(),
        },
    }
}

/// What a successfully built header-and-body record holds, given the
/// header section, the body text, and the declared body length: the type
/// the section names, and the decoded map exactly when a body was
/// declared.
pub open spec fn header_body_ok(
    b: HttpHeaderBody,
    lines: Seq<LineOrError>,
    body: Seq<char>,
    header_len: usize,
) -> bool {
    match spec_classify(lines) {
        BodyClass::Failed(_) => false,
        BodyClass::Absent => b.header_len == header_len && b.body_type is None
            && b.body_params is None,
        BodyClass::Found(t, bnd) => b.header_len == header_len && b.body_type == Option::Some(t)
            && (header_len == 0 ==> b.body_params is None) && (header_len > 0
            ==> match b.body_params {
            Option::Some(p) => p.wf() && p@ == spec_body_params(t, bnd, body),
            Option::None => false,
        }),
    }
}

impl HttpHeaderBody {
    /// A held parameter map has well-formed entries.
    pub open spec fn wf(&self) -> bool {
        match self.body_params {
            Option::Some(p) => p.wf(),
            Option::None => true,
        }
    }

    /// Build the header-and-body record for a request whose header section
    /// is `lines` and whose body, already read and materialized as text,
    /// is `body`.  `header_len` is the declared body length: a zero
    /// length means no parameter map is produced at all, distinguishing
    /// "no body" from "body present but empty".
    pub fn new(lines: Vec<LineOrError>, body: &str, header_len: usize) -> (r: Result<
        HttpHeaderBody,
        String,
    >)
        ensures
            match spec_classify(lines@) {
                BodyClass::Failed(m) => match r {
                    Result::Err(e) => e@ == m,
                    Result::Ok(_) => false,
                },
                _ => match r {
                    Result::Ok(b) => b.lines == lines && b.wf() && header_body_ok(
                        b,
                        lines@,
                        body@,
                        header_len,
                    ),
                    Result::Err(_) => false,
                },
            },
    {
        let class = Self::classify(&lines);
        match class {
            Result::Err(m) => Result::Err(m),
            Result::Ok(Option::None) => Result::Ok(
                HttpHeaderBody {
                    lines,
                    header_len,
                    body_type: Option::None,
                    body_params: Option::None,
                },
            ),
            Result::Ok(Option::Some((t, boundary))) => {
                let params = Self::gen_params(body, header_len, t, &boundary);
                Result::Ok(
                    HttpHeaderBody {
                        lines,
                        header_len,
                        body_type: Option::Some(t),
                        body_params: params,
                    },
                )
            },
        }
    }

    /// Decode the body under its classified type, when a body was
    /// declared at all.
    pub fn gen_params(
        body: &str,
        header_len: usize,
        body_type: HttpBodyType,
        boundary: &Option<String>,
    ) -> (r: Option<ParamMap>)
        ensures
            header_len == 0 ==> r is None,
            header_len > 0 ==> match r {
                Option::Some(p) => p.wf() && p@ == spec_body_params(
                    body_type,
                    opt_view(*boundary),
                    body@,
                ),
                Option::None => false,
            },
    {
        if header_len == 0 {
            return Option::None;
        }
        match body_type {
            HttpBodyType::FormData => match boundary {
                Option::Some(b) => Option::Some(Self::gen_params_form_data(body, b.as_str())),
                Option::None => Option::Some(ParamMap::new()),
            },
            HttpBodyType::UrlEncoded => Option::Some(Self::gen_params_url_encoded(body)),
        }
    }

    /// Classify the body named by a header section, with the boundary for
    /// a multipart body.
    pub fn classify(lines: &Vec<LineOrError>) -> (r: Result<
        Option<(HttpBodyType, Option<String>)>,
        String,
    >)
        ensures
            class_result_matches(r, spec_classify(lines@)),
    {
        let n = lines.len();
        let mut k: usize = 0;
        proof {
            assert(lines@.subrange(0, n as int) =~= lines@);
        }
        while k < n
            invariant
                k <= n,
                n == lines@.len(),
                spec_classify(lines@) == spec_classify(lines@.subrange(k as int, n as int)),
            decreases n - k,
        {
            let ghost rest = lines@.subrange(k as int, n as int);
            proof {
                assert(rest[0] == lines@[k as int]);
                assert(rest.subrange(1, rest.len() as int) =~= lines@.subrange(
                    k + 1,
                    n as int,
                ));
            }
            match &lines[k] {
                LineOrError::Error(e) => {
                    return Result::Err(e.clone());
                },
                LineOrError::Line(l) => {
                    let v = crate::text::chars_of(l.as_str());
                    if crate::text::starts_with_str(&v, "Content-Type: ") {
                        proof {
                            reveal_strlit("Content-Type: ");
                        }
                        let raw_value = crate::text::vec_subrange(&v, 14, v.len());
                        let ct = crate::text::trim(&raw_value);
                        if crate::text::starts_with_str(&ct, "multipart/form-data") {
                            proof {
                                reveal_strlit("multipart/form-data");
                            }
                            let after_raw = crate::text::vec_subrange(&ct, 19, ct.len());
                            let after = crate::text::trim(&after_raw);
                            let b0 = if crate::text::starts_with_str(&after, "; boundary=") {
                                proof {
                                    reveal_strlit("; boundary=");
                                }
                                crate::text::vec_subrange(&after, 11, after.len())
                            } else {
                                after
                            };
                            let b = crate::text::trim(&b0);
                            let boundary = crate::text::string_from_chars(&b);
                            return Result::Ok(
                                Option::Some(
                                    (HttpBodyType::FormData, Option::Some(boundary)),
                                ),
                            );
                        } else if crate::text::starts_with_str(
                            &ct,
                            "application/x-www-form-urlencoded",
                        ) {
                            return Result::Ok(
                                Option::Some((HttpBodyType::UrlEncoded, Option::None)),
                            );
                        } else {
                            let mut msg = String::new();
                            msg.append("Bad request! Unrecognized Content-Type: ");
                            let ct_str = crate::text::string_from_chars(&ct);
                            msg.append(ct_str.as_str());
                            return Result::Err(msg);
                        }
                    }
                },
            }
            k = k + 1;
        }
        proof {
            assert(lines@.subrange(n as int, n as int) =~= Seq::<LineOrError>::empty());
        }
        Result::Ok(Option::None)
    }
}

} // verus!
