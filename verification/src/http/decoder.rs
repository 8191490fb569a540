//! Percent-encoding codec over a fixed character table.
//!
//! The table maps each printable ASCII character (0x20 through 0x7E), the
//! newline character, and the one extended code 0x80 (carried by the euro
//! sign) to the three-character escape `%XX`, with `XX` the uppercase
//! hexadecimal code.  Decoding scans for `%`, takes up to two following
//! characters, and replaces the triple by its character when the triple is
//! in the table; an unmatched or truncated escape is emitted verbatim.
//! This is deliberately not a full RFC 3986 codec: any character outside
//! the table passes through unchanged in both directions.

use vstd::prelude::*;

verus! {

/// The character decoded from the escape `%80`.
pub open spec fn extended_char() -> char {
    '\u{20AC}'
}

/// The characters the codec table covers.
pub open spec fn in_table(c: char) -> bool {
    (0x20 <= c as u32 && c as u32 <= 0x7E) || c == '\n' || c == extended_char()
}

/// The code the table stores for a covered character.
pub open spec fn code_of(c: char) -> u8 {
    if c == extended_char() {
        0x80
    } else {
        (c as u32) as u8
    }
}

/// The character a valid escape code stands for.
pub open spec fn char_of_code(v: u8) -> char {
    if v == 0x80 {
        extended_char()
    } else {
        v as char
    }
}

/// The uppercase hexadecimal digit for a value below sixteen.
pub open spec fn hex_char(d: u8) -> char {
    if d < 10 {
        ((d + 0x30) as u8) as char
    } else {
        ((d + 0x37) as u8) as char
    }
}

/// Digits and uppercase letters, as the table's escapes use.
pub open spec fn is_hex_char(c: char) -> bool {
    (0x30 <= c as u32 && c as u32 <= 0x39) || (0x41 <= c as u32 && c as u32 <= 0x46)
}

/// The value of one hexadecimal digit character.
pub open spec fn hex_val(c: char) -> u8 {
    if 0x30 <= c as u32 && c as u32 <= 0x39 {
        (c as u32 - 0x30) as u8
    } else {
        (c as u32 - 0x37) as u8
    }
}

/// The three-character escape for a covered character.
pub open spec fn escape_of(c: char) -> Seq<char> {
    seq!['%', hex_char(code_of(c) / 16), hex_char(code_of(c) % 16)]
}

/// Codes that appear in the table: printable ASCII, newline, 0x80.
pub open spec fn valid_code(v: u8) -> bool {
    (0x20 <= v && v <= 0x7E) || v == 0x0A || v == 0x80
}

/// Whether a three-character token is one of the table's escapes.
pub open spec fn is_escape(t: Seq<char>) -> bool {
    &&& t.len() == 3
    &&& t[0] == '%'
    &&& is_hex_char(t[1])
    &&& is_hex_char(t[2])
    &&& valid_code((hex_val(t[1]) * 16 + hex_val(t[2])) as u8)
}

/// The code named by a valid escape token.
pub open spec fn escape_code(t: Seq<char>) -> u8 {
    (hex_val(t[1]) * 16 + hex_val(t[2])) as u8
}

/// What one character encodes to: its escape when covered, itself when not.
pub open spec fn encode_char(c: char) -> Seq<char> {
    if in_table(c) {
        escape_of(c)
    } else {
        seq![c]
    }
}

/// The encoding of a whole character sequence.
pub open spec fn spec_encode(s: Seq<char>) -> Seq<char>
    decreases s.len(),
{
    if s.len() == 0 {
        Seq::empty()
    } else {
        encode_char(s[0]) + spec_encode(s.subrange(1, s.len() as int))
    }
}

/// The decoding of a whole character sequence.  A `%` consumes up to two
/// following characters; a triple found in the table becomes its
/// character, any other consumed characters are kept verbatim.
pub open spec fn spec_decode(s: Seq<char>) -> Seq<char>
    decreases s.len(),
{
    if s.len() == 0 {
        Seq::empty()
    } else if s[0] == '%' {
        if s.len() >= 3 {
            let t = s.subrange(0, 3);
            if is_escape(t) {
                seq![char_of_code(escape_code(t))] + spec_decode(s.subrange(3, s.len() as int))
            } else {
                t + spec_decode(s.subrange(3, s.len() as int))
            }
        } else {
            s
        }
    } else {
        seq![s[0]] + spec_decode(s.subrange(1, s.len() as int))
    }
}

/// Bidirectional percent codec over the fixed table.
pub struct HttpUrlDecoder;

impl HttpUrlDecoder {
    /// Replace every table escape in `line` by its character, leaving
    /// unmatched or truncated escapes and all other characters verbatim.
    pub fn decode_utf_8(line: &str) -> (r: String)
        ensures
            r@ == spec_decode(line@),
    {
        let s = crate::text::chars_of(line);
        let len = s.len();
        let mut out: Vec<char> = Vec::new();
        let mut i: usize = 0;
        proof {
            assert(s@.subrange(0, len as int) =~= line@);
            assert(out@ + spec_decode(line@) =~= spec_decode(line@));
        }
        while i < len
            invariant
                i <= len,
                len == s@.len(),
                s@ == line@,
                spec_decode(line@) == out@ + spec_decode(s@.subrange(i as int, len as int)),
            decreases len - i,
        {
            let ghost rest = s@.subrange(i as int, len as int);
            let ghost pre = out@;
            let c = s[i];
            if c == '%' && len - i >= 3 {
                let h1 = s[i + 1];
                let h2 = s[i + 2];
                let ghost t = seq![c, h1, h2];
                proof {
                    assert(rest.subrange(0, 3) =~= t);
                    assert(rest.subrange(3, rest.len() as int) =~= s@.subrange(
                        i + 3,
                        len as int,
                    ));
                }
                let h1v = h1 as u32;
                let h2v = h2 as u32;
                let h1_hex = (0x30 <= h1v && h1v <= 0x39) || (0x41 <= h1v && h1v <= 0x46);
                let h2_hex = (0x30 <= h2v && h2v <= 0x39) || (0x41 <= h2v && h2v <= 0x46);
                let mut escaped = false;
                if h1_hex && h2_hex {
                    let d1: u32 = if h1v <= 0x39 {
                        h1v - 0x30
                    } else {
                        h1v - 0x37
                    };
                    let d2: u32 = if h2v <= 0x39 {
                        h2v - 0x30
                    } else {
                        h2v - 0x37
                    };
                    let code: u32 = d1 * 16 + d2;
                    assert(code == escape_code(t));
                    if (0x20 <= code && code <= 0x7E) || code == 0x0A || code == 0x80 {
                        assert(is_escape(t));
                        if code == 0x80 {
                            out.push('\u{20AC}');
                        } else {
                            out.push((code as u8) as char);
                        }
                        escaped = true;
                        assert(out@ =~= pre + seq![char_of_code(escape_code(t))]);
                    }
                }
                if !escaped {
                    assert(!is_escape(t));
                    out.push(c);
                    out.push(h1);
                    out.push(h2);
                    assert(out@ =~= pre + t);
                }
                i = i + 3;
                proof {
                    let chunk = if is_escape(t) {
                        seq![char_of_code(escape_code(t))]
                    } else {
                        t
                    };
                    assert(spec_decode(rest) == chunk + spec_decode(
                        s@.subrange(i as int, len as int),
                    ));
                    assert(pre + (chunk + spec_decode(s@.subrange(i as int, len as int))) =~= (
                    pre + chunk) + spec_decode(s@.subrange(i as int, len as int)));
                }
            } else if c == '%' {
                // Truncated escape at the end of the input: emit it as it
                // stands and stop.
                assert(rest[0] == '%' && rest.len() < 3);
                out.push(c);
                if i + 1 < len {
                    out.push(s[i + 1]);
                    assert(out@ =~= pre + rest);
                } else {
                    assert(out@ =~= pre + rest);
                }
                i = len;
                proof {
                    assert(spec_decode(rest) == rest);
                    assert(s@.subrange(len as int, len as int) =~= Seq::<char>::empty());
                    assert(pre + rest + spec_decode(Seq::<char>::empty()) =~= pre + rest);
                }
            } else {
                proof {
                    assert(rest.subrange(1, rest.len() as int) =~= s@.subrange(
                        i + 1,
                        len as int,
                    ));
                }
                out.push(c);
                i = i + 1;
                proof {
                    assert(spec_decode(rest) == seq![c] + spec_decode(
                        s@.subrange(i as int, len as int),
                    ));
                    assert(pre + (seq![c] + spec_decode(s@.subrange(i as int, len as int))) =~= (
                    pre + seq![c]) + spec_decode(s@.subrange(i as int, len as int)));
                }
            }
        }
        assert(s@.subrange(len as int, len as int) =~= Seq::<char>::empty());
        assert(out@ =~= spec_decode(line@));
        crate::text::string_from_chars(&out)
    }

    /// Replace every covered character in `line` by its table escape,
    /// leaving all other characters unchanged.
    pub fn encode_utf_8(line: &str) -> (r: String)
        ensures
            r@ == spec_encode(line@),
    {
        let s = crate::text::chars_of(line);
        let len = s.len();
        let mut out: Vec<char> = Vec::new();
        let mut i: usize = 0;
        proof {
            assert(s@.subrange(0, len as int) =~= line@);
            assert(out@ + spec_encode(line@) =~= spec_encode(line@));
        }
        while i < len
            invariant
                i <= len,
                len == s@.len(),
                s@ == line@,
                spec_encode(line@) == out@ + spec_encode(s@.subrange(i as int, len as int)),
            decreases len - i,
        {
            let ghost rest = s@.subrange(i as int, len as int);
            assert(rest.subrange(1, rest.len() as int) =~= s@.subrange(i + 1, len as int));
            let c = s[i];
            let cv = c as u32;
            if (0x20 <= cv && cv <= 0x7E) || c == '\n' || c == '\u{20AC}' {
                assert(in_table(c));
                let code: u8 = if c == '\u{20AC}' {
                    0x80
                } else {
                    cv as u8
                };
                assert(code == code_of(c));
                let d1: u8 = code / 16;
                let d2: u8 = code % 16;
                out.push('%');
                out.push(hex_char_exec(d1));
                out.push(hex_char_exec(d2));
                assert(encode_char(c) =~= seq!['%', hex_char(d1), hex_char(d2)]);
            } else {
                assert(!in_table(c));
                out.push(c);
                assert(encode_char(c) =~= seq![c]);
            }
            i = i + 1;
        }
        assert(s@.subrange(len as int, len as int) =~= Seq::<char>::empty());
        assert(out@ =~= spec_encode(line@));
        crate::text::string_from_chars(&out)
    }
}

/// Characters with the same code are the same character.
proof fn lemma_char_eq(c1: char, c2: char)
    requires
        c1 as u32 == c2 as u32,
    ensures
        c1 == c2,
{
}

/// Law: for every character the table covers, decoding its encoding gives
/// the character back.
pub proof fn lemma_decode_undoes_encode(c: char)
    requires
        in_table(c),
    ensures
        spec_decode(spec_encode(seq![c])) == seq![c],
{
    let b = code_of(c);
    let d1 = (b / 16) as u8;
    let d2 = (b % 16) as u8;
    let e = escape_of(c);
    assert(seq![c].subrange(1, 1) =~= Seq::<char>::empty());
    assert(spec_encode(Seq::<char>::empty()) =~= Seq::<char>::empty());
    assert(spec_encode(seq![c]) == encode_char(c) + spec_encode(seq![c].subrange(1, 1)));
    assert(spec_encode(seq![c]) =~= e);
    assert(d1 < 16 && d2 < 16);
    assert(hex_char(d1) as u32 == if d1 < 10 {
        d1 + 0x30
    } else {
        d1 + 0x37
    });
    assert(hex_char(d2) as u32 == if d2 < 10 {
        d2 + 0x30
    } else {
        d2 + 0x37
    });
    assert(is_hex_char(e[1]) && hex_val(e[1]) == d1);
    assert(is_hex_char(e[2]) && hex_val(e[2]) == d2);
    assert(b == d1 * 16 + d2);
    assert(escape_code(e) == b);
    assert(valid_code(b));
    assert(is_escape(e));
    assert(e.subrange(0, 3) =~= e);
    assert(e.subrange(3, 3) =~= Seq::<char>::empty());
    assert(char_of_code(b) == c);
    assert(spec_decode(Seq::<char>::empty()) =~= Seq::<char>::empty());
    assert(spec_decode(e) == seq![char_of_code(escape_code(e))] + spec_decode(e.subrange(3, 3)));
    assert(spec_decode(e) =~= seq![char_of_code(b)]);
}

/// Law: for every escape the table defines, encoding its decoding gives
/// the escape back.
pub proof fn lemma_encode_undoes_decode(t: Seq<char>)
    requires
        is_escape(t),
    ensures
        spec_encode(spec_decode(t)) == t,
{
    let d1 = hex_val(t[1]);
    let d2 = hex_val(t[2]);
    let v = escape_code(t);
    let c = char_of_code(v);
    assert(d1 < 16 && d2 < 16);
    assert(v == d1 * 16 + d2);
    assert(v / 16 == d1 && v % 16 == d2);
    assert(in_table(c));
    assert(t.subrange(0, 3) =~= t);
    assert(t.subrange(3, 3) =~= Seq::<char>::empty());
    assert(spec_decode(Seq::<char>::empty()) =~= Seq::<char>::empty());
    assert(spec_decode(t) == seq![char_of_code(escape_code(t))] + spec_decode(t.subrange(3, 3)));
    assert(spec_decode(t) =~= seq![c]);
    assert(seq![c].subrange(1, 1) =~= Seq::<char>::empty());
    assert(spec_encode(Seq::<char>::empty()) =~= Seq::<char>::empty());
    assert(spec_encode(seq![c]) == encode_char(c) + spec_encode(seq![c].subrange(1, 1)));
    assert(code_of(c) == v);
    assert(hex_char(d1) as u32 == if d1 < 10 {
        d1 + 0x30
    } else {
        d1 + 0x37
    });
    assert(hex_char(d2) as u32 == if d2 < 10 {
        d2 + 0x30
    } else {
        d2 + 0x37
    });
    assert(hex_char(d1) as u32 == t[1] as u32);
    assert(hex_char(d2) as u32 == t[2] as u32);
    lemma_char_eq(hex_char(d1), t[1]);
    lemma_char_eq(hex_char(d2), t[2]);
    assert(escape_of(c) == seq!['%', hex_char(code_of(c) / 16), hex_char(code_of(c) % 16)]);
    assert(code_of(c) / 16 == d1 && code_of(c) % 16 == d2);
    assert(escape_of(c) =~= t);
    assert(spec_encode(seq![c]) =~= escape_of(c));
}

/// The uppercase hexadecimal digit character for a value below sixteen.
fn hex_char_exec(d: u8) -> (r: char)
    requires
        d < 16,
    ensures
        r == hex_char(d),
{
    if d < 10 {
        (d + 0x30) as char
    } else {
        (d + 0x37) as char
    }
}

} // verus!
