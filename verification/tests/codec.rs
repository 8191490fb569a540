use m_server::http::decoder::HttpUrlDecoder;

#[test]
fn decode_simple_escapes() {
    assert_eq!(HttpUrlDecoder::decode_utf_8("%41"), "A");
    assert_eq!(HttpUrlDecoder::decode_utf_8("%20"), " ");
    assert_eq!(HttpUrlDecoder::decode_utf_8("%7E"), "~");
    assert_eq!(HttpUrlDecoder::decode_utf_8("%0A"), "\n");
    assert_eq!(HttpUrlDecoder::decode_utf_8("%80"), "\u{20AC}");
    assert_eq!(HttpUrlDecoder::decode_utf_8("a%20b%21c"), "a b!c");
}

#[test]
fn decode_leaves_plain_text_alone() {
    assert_eq!(HttpUrlDecoder::decode_utf_8(""), "");
    assert_eq!(HttpUrlDecoder::decode_utf_8("hello"), "hello");
    assert_eq!(HttpUrlDecoder::decode_utf_8("caf\u{E9}"), "caf\u{E9}");
}

#[test]
fn decode_emits_unmatched_tokens_verbatim() {
    // Lowercase hex digits are not in the table.
    assert_eq!(HttpUrlDecoder::decode_utf_8("%2a"), "%2a");
    // Not hexadecimal at all.
    assert_eq!(HttpUrlDecoder::decode_utf_8("%G1"), "%G1");
    // A code outside the table.
    assert_eq!(HttpUrlDecoder::decode_utf_8("%10"), "%10");
    // The second percent is consumed by the first token.
    assert_eq!(HttpUrlDecoder::decode_utf_8("%%20"), "%%20");
}

#[test]
fn decode_emits_truncated_tokens_verbatim() {
    assert_eq!(HttpUrlDecoder::decode_utf_8("%"), "%");
    assert_eq!(HttpUrlDecoder::decode_utf_8("%4"), "%4");
    assert_eq!(HttpUrlDecoder::decode_utf_8("ab%"), "ab%");
}

#[test]
fn encode_covers_the_table() {
    assert_eq!(HttpUrlDecoder::encode_utf_8("A"), "%41");
    assert_eq!(HttpUrlDecoder::encode_utf_8(" "), "%20");
    assert_eq!(HttpUrlDecoder::encode_utf_8("\n"), "%0A");
    assert_eq!(HttpUrlDecoder::encode_utf_8("\u{20AC}"), "%80");
    assert_eq!(HttpUrlDecoder::encode_utf_8("a b"), "%61%20%62");
}

#[test]
fn encode_passes_uncovered_characters_through() {
    assert_eq!(HttpUrlDecoder::encode_utf_8(""), "");
    assert_eq!(HttpUrlDecoder::encode_utf_8("caf\u{E9}"), "%63%61%66\u{E9}");
    assert_eq!(HttpUrlDecoder::encode_utf_8("\t"), "\t");
}

#[test]
fn decode_undoes_encode_on_every_covered_character() {
    let mut covered: Vec<char> = (0x20u8..=0x7Eu8).map(|b| b as char).collect();
    covered.push('\n');
    covered.push('\u{20AC}');
    for c in covered {
        let s: String = c.to_string();
        let encoded = HttpUrlDecoder::encode_utf_8(&s);
        assert_eq!(encoded.len(), 3, "one escape for {:?}", c);
        assert_eq!(HttpUrlDecoder::decode_utf_8(&encoded), s, "round trip of {:?}", c);
    }
}

#[test]
fn encode_undoes_decode_on_every_defined_escape() {
    let hex = "0123456789ABCDEF";
    let mut escapes: Vec<String> = Vec::new();
    for hi in hex.chars() {
        for lo in hex.chars() {
            let code = u32::from_str_radix(&format!("{}{}", hi, lo), 16).unwrap();
            if (0x20..=0x7E).contains(&code) || code == 0x0A || code == 0x80 {
                escapes.push(format!("%{}{}", hi, lo));
            }
        }
    }
    assert_eq!(escapes.len(), 97);
    for e in escapes {
        let decoded = HttpUrlDecoder::decode_utf_8(&e);
        assert_eq!(decoded.chars().count(), 1, "escape {} decodes to one character", e);
        assert_eq!(HttpUrlDecoder::encode_utf_8(&decoded), e, "round trip of {}", e);
    }
}
