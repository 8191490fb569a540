//! Character-level text utilities shared by the parsing modules.
//!
//! All header and body processing in this crate works on sequences of
//! characters.  This module supplies the executable building blocks for
//! that: conversions between `&str`, `String` and `Vec<char>`, prefix and
//! substring tests, whitespace trimming, and line splitting, each related
//! to a specification-level function over `Seq<char>`.

use vstd::prelude::*;

verus! {

/// Relies on `String::push`: appends the given character to the end of the
/// string.
#[verifier::external_body]
pub fn push_char(s: &mut String, c: char)
    ensures
        final(s)@ == old(s)@.push(c),
{
    s.push(c)
}

/// The characters of `s`, collected into a vector.
pub fn chars_of(s: &str) -> (r: Vec<char>)
    ensures
        r@ == s@,
{
    let len = s.unicode_len();
    let mut r: Vec<char> = Vec::new();
    let mut i: usize = 0;
    while i < len
        invariant
            i <= len,
            len == s@.len(),
            r@ == s@.subrange(0, i as int),
        decreases len - i,
    {
        r.push(s.get_char(i));
        i = i + 1;
        assert(r@ =~= s@.subrange(0, i as int));
    }
    assert(r@ =~= s@);
    r
}

/// The characters of `v`, collected into a string.
pub fn string_from_chars(v: &Vec<char>) -> (r: String)
    ensures
        r@ == v@,
{
    let mut r = String::new();
    let mut i: usize = 0;
    while i < v.len()
        invariant
            i <= v@.len(),
            r@ == v@.subrange(0, i as int),
        decreases v@.len() - i,
    {
        push_char(&mut r, v[i]);
        i = i + 1;
        assert(r@ =~= v@.subrange(0, i as int));
    }
    assert(r@ =~= v@);
    r
}

/// `p` is an initial segment of `s`.
pub open spec fn is_prefix(p: Seq<char>, s: Seq<char>) -> bool {
    p.len() <= s.len() && s.subrange(0, p.len() as int) == p
}

/// Whether the characters of `s` starting at `from` begin with `p`.
pub fn starts_with_at(s: &Vec<char>, from: usize, p: &Vec<char>) -> (r: bool)
    requires
        from <= s@.len(),
    ensures
        r == is_prefix(p@, s@.subrange(from as int, s@.len() as int)),
{
    let ghost tail = s@.subrange(from as int, s@.len() as int);
    let slen = s.len();
    if slen - from < p.len() {
        return false;
    }
    let mut i: usize = 0;
    while i < p.len()
        invariant
            i <= p@.len(),
            slen == s@.len(),
            p@.len() <= s@.len() - from,
            from <= s@.len(),
            tail == s@.subrange(from as int, s@.len() as int),
            forall|j: int| 0 <= j < i ==> tail[j] == p@[j],
        decreases p@.len() - i,
    {
        if s[from + i] != p[i] {
            assert(tail[i as int] != p@[i as int]);
            assert(!is_prefix(p@, tail)) by {
                if is_prefix(p@, tail) {
                    assert(tail.subrange(0, p@.len() as int)[i as int] == p@[i as int]);
                }
            }
            return false;
        }
        i = i + 1;
    }
    assert(tail.subrange(0, p@.len() as int) =~= p@);
    true
}

/// Whether `s` and `p` hold the same characters.
pub fn chars_eq(s: &Vec<char>, p: &Vec<char>) -> (r: bool)
    ensures
        r == (s@ == p@),
{
    if s.len() != p.len() {
        assert(s@ != p@) by {
            if s@ == p@ {
                assert(s@.len() == p@.len());
            }
        }
        return false;
    }
    let mut i: usize = 0;
    while i < s.len()
        invariant
            i <= s@.len(),
            s@.len() == p@.len(),
            forall|j: int| 0 <= j < i ==> s@[j] == p@[j],
        decreases s@.len() - i,
    {
        if s[i] != p[i] {
            return false;
        }
        i = i + 1;
    }
    assert(s@ =~= p@);
    true
}

/// The whitespace characters recognized when lines are trimmed or split
/// into tokens: the Unicode `White_Space` set, the one Rust's own
/// whitespace tests use.
pub open spec fn is_ws(c: char) -> bool {
    ||| (0x09 <= c as u32 && c as u32 <= 0x0D)
    ||| c == ' '
    ||| c == '\u{85}'
    ||| c == '\u{A0}'
    ||| c == '\u{1680}'
    ||| (0x2000 <= c as u32 && c as u32 <= 0x200A)
    ||| c == '\u{2028}'
    ||| c == '\u{2029}'
    ||| c == '\u{202F}'
    ||| c == '\u{205F}'
    ||| c == '\u{3000}'
}

/// `s` without its leading whitespace.
pub open spec fn trim_start_spec(s: Seq<char>) -> Seq<char>
    decreases s.len(),
{
    if s.len() > 0 && is_ws(s[0]) {
        trim_start_spec(s.subrange(1, s.len() as int))
    } else {
        s
    }
}

/// `s` without its trailing whitespace.
pub open spec fn trim_end_spec(s: Seq<char>) -> Seq<char>
    decreases s.len(),
{
    if s.len() > 0 && is_ws(s[s.len() - 1]) {
        trim_end_spec(s.subrange(0, s.len() - 1))
    } else {
        s
    }
}

/// `s` without leading and trailing whitespace.
pub open spec fn trim_spec(s: Seq<char>) -> Seq<char> {
    trim_end_spec(trim_start_spec(s))
}

/// The characters of `s` from `from` (inclusive) to `to` (exclusive).
pub fn vec_subrange(s: &Vec<char>, from: usize, to: usize) -> (r: Vec<char>)
    requires
        from <= to <= s@.len(),
    ensures
        r@ == s@.subrange(from as int, to as int),
{
    let mut r: Vec<char> = Vec::new();
    let mut i: usize = from;
    while i < to
        invariant
            from <= i <= to <= s@.len(),
            r@ == s@.subrange(from as int, i as int),
        decreases to - i,
    {
        r.push(s[i]);
        i = i + 1;
        assert(r@ =~= s@.subrange(from as int, i as int));
    }
    r
}

/// `s` with leading and trailing whitespace removed.
pub fn trim(s: &Vec<char>) -> (r: Vec<char>)
    ensures
        r@ == trim_spec(s@),
{
    let len = s.len();
    let mut a: usize = 0;
    assert(s@.subrange(0, len as int) =~= s@);
    while a < len && is_ws_exec(s[a])
        invariant
            a <= len,
            len == s@.len(),
            trim_start_spec(s@) == trim_start_spec(s@.subrange(a as int, len as int)),
        decreases len - a,
    {
        proof {
            let cur = s@.subrange(a as int, len as int);
            assert(cur.subrange(1, cur.len() as int) =~= s@.subrange(a + 1, len as int));
        }
        a = a + 1;
    }
    proof {
        let cur = s@.subrange(a as int, len as int);
        if a == len {
            assert(cur =~= Seq::<char>::empty());
        }
        assert(trim_start_spec(s@) == cur);
    }
    let mut b: usize = len;
    while b > a && is_ws_exec(s[b - 1])
        invariant
            a <= b <= len,
            len == s@.len(),
            trim_start_spec(s@) == s@.subrange(a as int, len as int),
            trim_end_spec(s@.subrange(a as int, len as int)) == trim_end_spec(
                s@.subrange(a as int, b as int),
            ),
        decreases b,
    {
        proof {
            let cur = s@.subrange(a as int, b as int);
            assert(cur.subrange(0, cur.len() - 1) =~= s@.subrange(a as int, b - 1));
        }
        b = b - 1;
    }
    proof {
        let cur = s@.subrange(a as int, b as int);
        if b == a {
            assert(cur =~= Seq::<char>::empty());
        }
        assert(trim_end_spec(s@.subrange(a as int, b as int)) == cur);
    }
    vec_subrange(s, a, b)
}

/// Whether `needle` occurs as a contiguous run anywhere in `hay`.
pub open spec fn contains_seq(hay: Seq<char>, needle: Seq<char>) -> bool {
    exists|i: int|
        0 <= i && i + needle.len() <= hay.len() && #[trigger] hay.subrange(i, i + needle.len())
            == needle
}

/// Whether `needle` occurs as a contiguous run anywhere in `s`.
pub fn contains_sub(s: &Vec<char>, needle: &Vec<char>) -> (r: bool)
    ensures
        r == contains_seq(s@, needle@),
{
    let len = s.len();
    let nlen = needle.len();
    if nlen > len {
        assert(!contains_seq(s@, needle@));
        return false;
    }
    if nlen == 0 {
        assert(contains_seq(s@, needle@)) by {
            assert(s@.subrange(0, 0 + needle@.len() as int) =~= needle@);
        }
        return true;
    }
    let mut i: usize = 0;
    while i <= len - nlen
        invariant
            nlen == needle@.len(),
            len == s@.len(),
            1 <= nlen <= len,
            i <= len - nlen + 1,
            forall|j: int|
                0 <= j < i ==> #[trigger] s@.subrange(j, j + needle@.len()) != needle@,
        decreases len - i,
    {
        if starts_with_at(s, i, needle) {
            proof {
                let tail = s@.subrange(i as int, len as int);
                assert(tail.subrange(0, needle@.len() as int) =~= s@.subrange(
                    i as int,
                    i + needle@.len(),
                ));
            }
            return true;
        }
        proof {
            let tail = s@.subrange(i as int, len as int);
            assert(tail.subrange(0, needle@.len() as int) =~= s@.subrange(
                i as int,
                i + needle@.len(),
            ));
        }
        i = i + 1;
    }
    assert(!contains_seq(s@, needle@));
    false
}

/// The first index at or after `from` holding `c`, or the length when
/// there is none.
pub open spec fn idx_of(s: Seq<char>, from: int, c: char) -> int
    decreases s.len() - from,
{
    if from >= s.len() {
        s.len() as int
    } else if s[from] == c {
        from
    } else {
        idx_of(s, from + 1, c)
    }
}

/// The first index at or after `from` holding `c`.
pub fn find_char(v: &Vec<char>, from: usize, c: char) -> (r: usize)
    requires
        from <= v@.len(),
    ensures
        r == idx_of(v@, from as int, c),
        from <= r <= v@.len(),
        r < v@.len() ==> v@[r as int] == c,
{
    let mut i: usize = from;
    let len = v.len();
    while i < len && v[i] != c
        invariant
            from <= i <= len,
            len == v@.len(),
            idx_of(v@, from as int, c) == idx_of(v@, i as int, c),
        decreases len - i,
    {
        i = i + 1;
    }
    i
}

/// Whether `s` begins with the characters of `lit`.
pub fn starts_with_str(s: &Vec<char>, lit: &str) -> (r: bool)
    ensures
        r == is_prefix(lit@, s@),
{
    let p = chars_of(lit);
    assert(s@.subrange(0, s@.len() as int) =~= s@);
    starts_with_at(s, 0, &p)
}

/// Whether `c` is in the recognized whitespace set.
pub fn is_ws_exec(c: char) -> (r: bool)
    ensures
        r == is_ws(c),
{
    let cv = c as u32;
    (0x09 <= cv && cv <= 0x0D) || c == ' ' || c == '\u{85}' || c == '\u{A0}' || c == '\u{1680}'
        || (0x2000 <= cv && cv <= 0x200A) || c == '\u{2028}' || c == '\u{2029}' || c == '\u{202F}'
        || c == '\u{205F}' || c == '\u{3000}'
}

/// Whether the strings `a` and `b` hold the same characters.
pub fn str_eq(a: &str, b: &str) -> (r: bool)
    ensures
        r == (a@ == b@),
{
    let a_len = a.unicode_len();
    let b_len = b.unicode_len();
    if a_len != b_len {
        assert(a@ != b@) by {
            if a@ == b@ {
                assert(a@.len() == b@.len());
            }
        }
        return false;
    }
    let mut i: usize = 0;
    while i < a_len
        invariant
            i <= a@.len(),
            a@.len() == a_len,
            a@.len() == b@.len(),
            forall|j: int| 0 <= j < i ==> a@[j] == b@[j],
        decreases a@.len() - i,
    {
        if a.get_char(i) != b.get_char(i) {
            return false;
        }
        i = i + 1;
    }
    assert(a@ =~= b@);
    true
}

} // verus!
