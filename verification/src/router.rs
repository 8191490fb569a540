//! Path-template routing.
//!
//! A route is registered under a method and a path template.  A template
//! segment written `{name}` matches exactly one non-empty path segment
//! and captures it under `name`; any other segment matches literally.  A
//! malformed template (an empty or ill-formed parameter name, or a
//! repeated one) is rejected at registration: the route is skipped.
//! Resolution walks the registered routes in registration order and picks
//! the first whose method matches and whose pattern matches the whole
//! path; registration order is the tie-break and is user-observable.

use vstd::prelude::*;

use crate::http::request::HttpRequestMethod;
use crate::params::ParamMap;
use crate::text::idx_of;

verus! {

/// One compiled segment of a path template.
pub enum RouteSegment {
    Literal(Vec<char>),
    Param(String),
}

/// What one compiled segment means: a literal run of characters, or a
/// named capture of one path segment.
pub enum SegModel {
    Lit(Seq<char>),
    Capture(Seq<char>),
}

impl View for RouteSegment {
    type V = SegModel;

    open spec fn view(&self) -> SegModel {
        match self {
            RouteSegment::Literal(t) => SegModel::Lit(t@),
            RouteSegment::Param(n) => SegModel::Capture(n@),
        }
    }
}

/// The meanings of a sequence of compiled segments.
pub open spec fn seg_views(s: Seq<RouteSegment>) -> Seq<SegModel> {
    Seq::new(s.len(), |i: int| s[i]@)
}

/// What one template segment compiles to: `{name}` is a capture of
/// `name`, anything else is a literal.
pub open spec fn seg_model(seg: Seq<char>) -> SegModel {
    if seg.len() > 0 && seg[0] == '{' && seg[seg.len() - 1] == '}' {
        SegModel::Capture(seg.subrange(1, seg.len() - 1))
    } else {
        SegModel::Lit(seg)
    }
}

/// A finished template segment's contribution: empty segments are
/// dropped.
pub open spec fn seg_done(buf: Seq<char>) -> Seq<SegModel> {
    if buf.len() == 0 {
        Seq::empty()
    } else {
        seq![seg_model(buf)]
    }
}

/// The compilation fold over a template's characters: the segments
/// finished so far and the one being gathered.
pub open spec fn compile_run(s: Seq<char>) -> (Seq<SegModel>, Seq<char>)
    decreases s.len(),
{
    if s.len() == 0 {
        (Seq::empty(), Seq::empty())
    } else {
        let (segs, buf) = compile_run(s.drop_last());
        if s.last() == '/' {
            (segs + seg_done(buf), Seq::empty())
        } else {
            (segs, buf.push(s.last()))
        }
    }
}

/// The compiled pattern of a template: its `/`-separated segments, empty
/// ones dropped, each literal or capture.
pub open spec fn compile_spec(s: Seq<char>) -> Seq<SegModel> {
    let (segs, buf) = compile_run(s);
    segs + seg_done(buf)
}

/// A character a capture name may hold.
pub open spec fn name_char(c: char) -> bool {
    (0x30 <= c as u32 && c as u32 <= 0x39) || (0x41 <= c as u32 && c as u32 <= 0x5A) || (0x61
        <= c as u32 && c as u32 <= 0x7A) || c == '_'
}

/// A well-formed capture name: non-empty, word characters only, not
/// starting with a digit.
pub open spec fn name_wf(n: Seq<char>) -> bool {
    &&& n.len() > 0
    &&& forall|i: int| 0 <= i < n.len() ==> name_char(#[trigger] n[i])
    &&& !(0x30 <= n[0] as u32 && n[0] as u32 <= 0x39)
}

/// A well-formed pattern: every capture name is well formed and no name
/// repeats.
pub open spec fn pattern_wf(p: Seq<SegModel>) -> bool {
    &&& forall|i: int|
        0 <= i < p.len() ==> match #[trigger] p[i] {
            SegModel::Capture(n) => name_wf(n),
            SegModel::Lit(_) => true,
        }
    &&& forall|i: int, j: int|
        0 <= i < j < p.len() ==> match (#[trigger] p[i], #[trigger] p[j]) {
            (SegModel::Capture(a), SegModel::Capture(b)) => a != b,
            _ => true,
        }
}

/// A template compiles iff its compiled pattern is well formed.
pub open spec fn template_wf(t: Seq<char>) -> bool {
    pattern_wf(compile_spec(t))
}

/// Compile a template, or reject it when it is malformed.
fn compile_template(path: &str) -> (r: Option<Vec<RouteSegment>>)
    ensures
        match r {
            Option::Some(v) => template_wf(path@) && seg_views(v@) == compile_spec(path@),
            Option::None => !template_wf(path@),
        },
{
    let s = crate::text::chars_of(path);
    let len = s.len();
    let mut segs: Vec<RouteSegment> = Vec::new();
    let mut buf: Vec<char> = Vec::new();
    let mut i: usize = 0;
    proof {
        assert(s@.subrange(0, 0) =~= Seq::<char>::empty());
        assert(seg_views(segs@) =~= compile_run(s@.subrange(0, 0)).0);
    }
    while i < len
        invariant
            i <= len,
            len == s@.len(),
            s@ == path@,
            seg_views(segs@) == compile_run(s@.subrange(0, i as int)).0,
            buf@ == compile_run(s@.subrange(0, i as int)).1,
        decreases len - i,
    {
        proof {
            let done2 = s@.subrange(0, i + 1);
            assert(done2.drop_last() =~= s@.subrange(0, i as int));
            assert(done2.last() == s@[i as int]);
        }
        let c = s[i];
        if c == '/' {
            push_segment(&mut segs, &buf);
            buf.clear();
        } else {
            buf.push(c);
        }
        i = i + 1;
    }
    proof {
        assert(s@.subrange(0, len as int) =~= s@);
    }
    push_segment(&mut segs, &buf);
    if check_pattern(&segs) {
        Option::Some(segs)
    } else {
        Option::None
    }
}

/// Append the compiled form of one finished template segment; an empty
/// segment contributes nothing.
fn push_segment(segs: &mut Vec<RouteSegment>, buf: &Vec<char>)
    ensures
        seg_views(final(segs)@) == seg_views(old(segs)@) + seg_done(buf@),
{
    let blen = buf.len();
    if blen == 0 {
        assert(seg_views(segs@) =~= seg_views(segs@) + seg_done(buf@));
        return;
    }
    let ghost pre = segs@;
    if buf[0] == '{' && buf[blen - 1] == '}' {
        let inner = crate::text::vec_subrange(buf, 1, blen - 1);
        let name = crate::text::string_from_chars(&inner);
        segs.push(RouteSegment::Param(name));
    } else {
        let lit = crate::text::vec_subrange(buf, 0, blen);
        proof {
            assert(buf@.subrange(0, blen as int) =~= buf@);
        }
        segs.push(RouteSegment::Literal(lit));
    }
    proof {
        assert(seg_views(segs@) =~= seg_views(pre) + seg_done(buf@));
    }
}

/// Whether every capture name of the compiled pattern is well formed and
/// none repeats.
fn check_pattern(segs: &Vec<RouteSegment>) -> (r: bool)
    ensures
        r == pattern_wf(seg_views(segs@)),
{
    let ghost p = seg_views(segs@);
    let n = segs.len();
    let mut i: usize = 0;
    while i < n
        invariant
            i <= n,
            n == segs@.len(),
            p == seg_views(segs@),
            forall|k: int|
                0 <= k < i ==> match #[trigger] p[k] {
                    SegModel::Capture(nm) => name_wf(nm),
                    SegModel::Lit(_) => true,
                },
            forall|k: int, l: int|
                0 <= k < l < i ==> match (#[trigger] p[k], #[trigger] p[l]) {
                    (SegModel::Capture(a), SegModel::Capture(b)) => a != b,
                    _ => true,
                },
        decreases n - i,
    {
        match &segs[i] {
            RouteSegment::Param(nm) => {
                let nv = crate::text::chars_of(nm.as_str());
                if !check_name(&nv) {
                    assert(p[i as int] matches SegModel::Capture(x) && !name_wf(x));
                    return false;
                }
                let mut j: usize = 0;
                while j < i
                    invariant
                        j <= i < n,
                        n == segs@.len(),
                        p == seg_views(segs@),
                        nv@ == nm@,
                        p[i as int] == SegModel::Capture(nm@),
                        forall|l: int|
                            0 <= l < j ==> match #[trigger] p[l] {
                                SegModel::Capture(a) => a != nm@,
                                SegModel::Lit(_) => true,
                            },
                    decreases i - j,
                {
                    match &segs[j] {
                        RouteSegment::Param(other) => {
                            if crate::text::str_eq(other.as_str(), nm.as_str()) {
                                assert(p[j as int] matches SegModel::Capture(a) && a == nm@);
                                return false;
                            }
                        },
                        RouteSegment::Literal(_) => {},
                    }
                    j = j + 1;
                }
            },
            RouteSegment::Literal(_) => {},
        }
        i = i + 1;
    }
    true
}

/// Whether a pattern matches a whole path.  Each segment must be entered
/// by a `/`; a literal segment must equal the path segment exactly; a
/// capture matches any non-empty path segment.  An empty pattern matches
/// only the empty path.
pub open spec fn pattern_matches(p: Seq<SegModel>, path: Seq<char>) -> bool
    decreases p.len(),
{
    if p.len() == 0 {
        path.len() == 0
    } else {
        &&& path.len() > 0
        &&& path[0] == '/'
        &&& {
            let k = idx_of(path, 1, '/');
            let head = path.subrange(1, k);
            &&& match p[0] {
                SegModel::Lit(t) => head == t,
                SegModel::Capture(_) => head.len() > 0,
            }
            &&& pattern_matches(
                p.subrange(1, p.len() as int),
                path.subrange(k, path.len() as int),
            )
        }
    }
}

/// The captures a matching walk gathers, added to `acc` in pattern
/// order.
pub open spec fn captures_from(
    p: Seq<SegModel>,
    path: Seq<char>,
    acc: Map<Seq<char>, Seq<char>>,
) -> Map<Seq<char>, Seq<char>>
    decreases p.len(),
{
    if p.len() == 0 || path.len() == 0 {
        acc
    } else {
        let k = idx_of(path, 1, '/');
        let head = path.subrange(1, k);
        let acc2 = match p[0] {
            SegModel::Capture(n) => acc.insert(n, head),
            SegModel::Lit(_) => acc,
        };
        captures_from(p.subrange(1, p.len() as int), path.subrange(k, path.len() as int), acc2)
    }
}

/// The named path segments a pattern captures from a path.
pub open spec fn pattern_captures(p: Seq<SegModel>, path: Seq<char>) -> Map<Seq<char>, Seq<char>> {
    captures_from(p, path, Map::empty())
}

/// Walk a path against a compiled pattern; the captures when it matches.
fn match_path(segs: &Vec<RouteSegment>, path: &Vec<char>) -> (r: Option<ParamMap>)
    ensures
        match r {
            Option::Some(m) => pattern_matches(seg_views(segs@), path@) && m.wf() && m@
                == pattern_captures(seg_views(segs@), path@),
            Option::None => !pattern_matches(seg_views(segs@), path@),
        },
{
    let ghost p = seg_views(segs@);
    let n = segs.len();
    let plen = path.len();
    let mut pos: usize = 0;
    let mut caps = ParamMap::new();
    let mut si: usize = 0;
    proof {
        assert(p.subrange(0, p.len() as int) =~= p);
        assert(path@.subrange(0, plen as int) =~= path@);
    }
    while si < n
        invariant
            si <= n,
            n == segs@.len(),
            plen == path@.len(),
            pos <= plen,
            p == seg_views(segs@),
            caps.wf(),
            pattern_matches(p, path@) == pattern_matches(
                p.subrange(si as int, n as int),
                path@.subrange(pos as int, plen as int),
            ),
            pattern_matches(p, path@) ==> pattern_captures(p, path@) == captures_from(
                p.subrange(si as int, n as int),
                path@.subrange(pos as int, plen as int),
                caps@,
            ),
        decreases n - si,
    {
        let ghost rem = p.subrange(si as int, n as int);
        let ghost rest = path@.subrange(pos as int, plen as int);
        proof {
            assert(rem[0] == p[si as int]);
        }
        if pos >= plen || path[pos] != '/' {
            assert(!pattern_matches(rem, rest));
            return Option::None;
        }
        proof {
            assert(rest[0] == path@[pos as int]);
        }
        let k = crate::text::find_char(path, pos + 1, '/');
        let ghost krel = idx_of(rest, 1, '/');
        proof {
            lemma_idx_of_shift(path@, pos as int, k as int);
            assert(krel == k - pos);
            assert(rest.subrange(1, krel) =~= path@.subrange(pos + 1, k as int));
            assert(rest.subrange(krel, rest.len() as int) =~= path@.subrange(
                k as int,
                plen as int,
            ));
            assert(rem.subrange(1, rem.len() as int) =~= p.subrange(si + 1, n as int));
        }
        let head = crate::text::vec_subrange(path, pos + 1, k);
        match &segs[si] {
            RouteSegment::Literal(t) => {
                if !crate::text::chars_eq(&head, t) {
                    assert(!pattern_matches(rem, rest));
                    return Option::None;
                }
            },
            RouteSegment::Param(nm) => {
                if head.len() == 0 {
                    assert(!pattern_matches(rem, rest));
                    return Option::None;
                }
                let head_str = crate::text::string_from_chars(&head);
                caps.insert(nm.clone(), head_str);
            },
        }
        pos = k;
        si = si + 1;
    }
    proof {
        assert(p.subrange(n as int, n as int) =~= Seq::<SegModel>::empty());
    }
    if pos == plen {
        proof {
            assert(path@.subrange(plen as int, plen as int) =~= Seq::<char>::empty());
        }
        Option::Some(caps)
    } else {
        proof {
            assert(path@.subrange(pos as int, plen as int).len() > 0);
        }
        Option::None
    }
}

/// Finding a character from a later start looks through the same tail:
/// the first hit of `/` in the tail of `s` from `pos`, seen from `pos`.
proof fn lemma_idx_of_shift(s: Seq<char>, pos: int, k: int)
    requires
        0 <= pos < s.len(),
        k == idx_of(s, pos + 1, '/'),
    ensures
        idx_of(s.subrange(pos, s.len() as int), 1, '/') == k - pos,
{
    lemma_idx_of_shift_gen(s, pos, pos + 1);
}

/// Shifting a sequence shifts every character search with it.
proof fn lemma_idx_of_shift_gen(s: Seq<char>, pos: int, from: int)
    requires
        0 <= pos <= from <= s.len(),
    ensures
        idx_of(s.subrange(pos, s.len() as int), from - pos, '/') == idx_of(s, from, '/') - pos,
    decreases s.len() - from,
{
    let tail = s.subrange(pos, s.len() as int);
    if from >= s.len() {
    } else if s[from] == '/' {
        assert(tail[from - pos] == s[from]);
    } else {
        assert(tail[from - pos] == s[from]);
        lemma_idx_of_shift_gen(s, pos, from + 1);
    }
}

/// One registered route: its method, its compiled pattern, and the
/// handler bound to it.
pub struct RouteHandler<H> {
    pub method: HttpRequestMethod,
    pub segments: Vec<RouteSegment>,
    pub handler: H,
}

/// The route table: registered routes in registration order.
pub struct HttpRouter<H> {
    pub routes: Vec<RouteHandler<H>>,
}

/// Whether a registered route answers the given method and path.
pub open spec fn route_hits<H>(
    r: RouteHandler<H>,
    method: HttpRequestMethod,
    path: Seq<char>,
) -> bool {
    r.method == method && pattern_matches(seg_views(r.segments@), path)
}

/// A resolved route: which registered route answered, and the path
/// segments its pattern captured.
pub struct RouteMatch {
    pub index: usize,
    pub params: ParamMap,
}

impl<H> HttpRouter<H> {
    /// Every registered pattern is well formed.
    pub open spec fn wf(&self) -> bool {
        forall|i: int|
            0 <= i < self.routes@.len() ==> pattern_wf(
                seg_views(#[trigger] self.routes@[i].segments@),
            )
    }

    /// An empty route table.
    pub fn new() -> (r: HttpRouter<H>)
        ensures
            r.wf(),
            r.routes@.len() == 0,
    {
        HttpRouter { routes: Vec::new() }
    }

    /// Register `handler` under `method` and the path template `path`.
    /// A malformed template is rejected: the table is left unchanged.
    pub fn add_route(&mut self, method: HttpRequestMethod, path: &str, handler: H)
        requires
            old(self).wf(),
        ensures
            final(self).wf(),
            template_wf(path@) ==> {
                &&& final(self).routes@.len() == old(self).routes@.len() + 1
                &&& forall|i: int|
                    0 <= i < old(self).routes@.len() ==> final(self).routes@[i] == old(
                        self,
                    ).routes@[i]
                &&& final(self).routes@.last().method == method
                &&& seg_views(final(self).routes@.last().segments@) == compile_spec(path@)
                &&& final(self).routes@.last().handler == handler
            },
            !template_wf(path@) ==> final(self).routes@ == old(self).routes@,
    {
        match compile_template(path) {
            Option::Some(segments) => {
                self.routes.push(RouteHandler { method, segments, handler });
            },
            Option::None => {},
        }
    }

    /// Find the earliest registered route whose method matches and whose
    /// pattern matches the whole path, with its captures; nothing
    /// matching resolves to nothing.
    pub fn resolve(&self, method: HttpRequestMethod, path: &str) -> (r: Option<RouteMatch>)
        requires
            self.wf(),
        ensures
            match r {
                Option::Some(m) => {
                    &&& m.index < self.routes@.len()
                    &&& route_hits(self.routes@[m.index as int], method, path@)
                    &&& forall|j: int|
                        0 <= j < m.index ==> !route_hits(
                            #[trigger] self.routes@[j],
                            method,
                            path@,
                        )
                    &&& m.params.wf()
                    &&& m.params@ == pattern_captures(
                        seg_views(self.routes@[m.index as int].segments@),
                        path@,
                    )
                },
                Option::None => forall|j: int|
                    0 <= j < self.routes@.len() ==> !route_hits(
                        #[trigger] self.routes@[j],
                        method,
                        path@,
                    ),
            },
    {
        let path_chars = crate::text::chars_of(path);
        let n = self.routes.len();
        let mut j: usize = 0;
        while j < n
            invariant
                j <= n,
                n == self.routes@.len(),
                path_chars@ == path@,
                self.wf(),
                forall|l: int| 0 <= l < j ==> !route_hits(#[trigger] self.routes@[l], method, path@),
            decreases n - j,
        {
            let entry = &self.routes[j];
            if entry.method == method {
                match match_path(&entry.segments, &path_chars) {
                    Option::Some(params) => {
                        return Option::Some(RouteMatch { index: j, params });
                    },
                    Option::None => {},
                }
            }
            j = j + 1;
        }
        Option::None
    }

    /// The handler of a registered route.
    pub fn handler(&self, index: usize) -> (r: &H)
        requires
            index < self.routes@.len(),
        ensures
            *r == self.routes@[index as int].handler,
    {
        &self.routes[index].handler
    }
}

/// A request's route: the method and path its request line named.
#[derive(Clone)]
pub struct HttpRoute {
    pub method: HttpRequestMethod,
    pub path: String,
}

impl HttpRoute {
    /// A readable rendering of the route.
    pub fn route_string(&self) -> (r: String)
        ensures
            r@ == "Method: "@ + self.method.spec_name() + " Path: "@ + self.path@,
    {
        let mut r = String::new();
        r.append("Method: ");
        r.append(self.method.to_str());
        r.append(" Path: ");
        r.append(self.path.as_str());
        r
    }
}

/// Whether the characters form a well-formed capture name.
fn check_name(n: &Vec<char>) -> (r: bool)
    ensures
        r == name_wf(n@),
{
    let len = n.len();
    if len == 0 {
        return false;
    }
    let c0 = n[0] as u32;
    if 0x30 <= c0 && c0 <= 0x39 {
        return false;
    }
    let mut i: usize = 0;
    while i < len
        invariant
            i <= len,
            len == n@.len(),
            forall|k: int| 0 <= k < i ==> name_char(#[trigger] n@[k]),
        decreases len - i,
    {
        let cv = n[i] as u32;
        if !((0x30 <= cv && cv <= 0x39) || (0x41 <= cv && cv <= 0x5A) || (0x61 <= cv && cv
            <= 0x7A) || n[i] == '_') {
            assert(!name_char(n@[i as int]));
            return false;
        }
        i = i + 1;
    }
    true
}

} // verus!
