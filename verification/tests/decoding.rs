use shiva::decoder::{decode_fallback, decode_pdf_text_robust, decode_utf16, decode_with_fallbacks};

#[test]
fn usable_standard_text_is_kept() {
    assert_eq!(decode_with_fallbacks("Hello".to_string(), b"ignored"), "Hello");
    assert_eq!(decode_with_fallbacks("\u{1}".to_string(), b"abc"), "\u{1}");
    assert_eq!(decode_with_fallbacks(" x ".to_string(), b"abc"), " x ");
}

#[test]
fn blank_standard_text_is_refused() {
    assert_eq!(decode_with_fallbacks(String::new(), b"abc"), "abc");
    assert_eq!(decode_with_fallbacks("  \t\n".to_string(), b"abc"), "abc");
    assert_eq!(decode_with_fallbacks("\u{a0}\u{2003}".to_string(), b"abc"), "abc");
}

#[test]
fn marked_standard_text_is_refused() {
    assert_eq!(decode_with_fallbacks("?Identity-H Unimplemented?".to_string(), b"abc"), "abc");
    assert_eq!(decode_with_fallbacks("xUnimplementedx".to_string(), b"abc"), "abc");
    assert_eq!(decode_with_fallbacks("Identity-H".to_string(), b"abc"), "abc");
    assert_eq!(decode_with_fallbacks("Identity-V".to_string(), b"abc"), "Identity-V");
    assert_eq!(decode_with_fallbacks("unimplemented".to_string(), b"abc"), "unimplemented");
}

#[test]
fn fallback_prefers_utf8() {
    assert_eq!(decode_fallback("caf\u{e9}".as_bytes()), "caf\u{e9}");
    assert_eq!(decode_fallback(b"ab"), "ab");
    assert_eq!(decode_fallback(b" "), " ");
    assert_eq!(decode_fallback(&[0x00, 0x41, 0x00, 0x42]), "\u{0}A\u{0}B");
}

#[test]
fn fallback_takes_utf16_with_the_high_byte_first() {
    assert_eq!(decode_fallback(&[0x04, 0x1f, 0x04, 0x40]), "\u{41f}\u{440}");
    assert_eq!(decode_fallback(&[0xd8, 0x35, 0xdc, 0x00]), "\u{1d400}");
}

#[test]
fn fallback_takes_utf16_with_the_low_byte_first() {
    assert_eq!(decode_fallback(&[0xdc, 0x00, 0x41, 0x00]), "\u{dc}A");
    assert_eq!(decode_fallback(&[0x3d, 0xd8, 0x00, 0xde, 0xdc, 0x00]), "\u{1f600}\u{dc}");
    assert_eq!(decode_fallback(&[0xdc, 0x00, 0xdc, 0x00]), "\u{dc}\u{dc}");
}

#[test]
fn fallback_takes_latin1_last() {
    assert_eq!(decode_fallback(&[0xe9, 0x74, 0xe9]), "\u{e9}t\u{e9}");
    assert_eq!(decode_fallback(&[0xff]), "\u{ff}");
    assert_eq!(decode_fallback(&[0xdc, 0xdc]), "\u{dc}\u{dc}");
}

#[test]
fn fallback_gives_up_with_the_empty_text() {
    assert_eq!(decode_fallback(&[]), "");
    assert_eq!(decode_fallback(&[0x01]), "");
    assert_eq!(decode_fallback(&[0x01, 0x02, 0x03]), "");
    assert_eq!(decode_fallback(&[0x80, 0x81, 0x9f]), "");
}

#[test]
fn utf16_units_decode_to_text() {
    assert_eq!(decode_utf16(&[]), Some(vec![]));
    assert_eq!(decode_utf16(&[0x41, 0xe9, 0x20ac]), Some(vec!['A', '\u{e9}', '\u{20ac}']));
    assert_eq!(decode_utf16(&[0xd83d, 0xde00]), Some(vec!['\u{1f600}']));
    assert_eq!(decode_utf16(&[0xd800, 0xdc00]), Some(vec!['\u{10000}']));
    assert_eq!(decode_utf16(&[0xdbff, 0xdfff]), Some(vec!['\u{10ffff}']));
    assert_eq!(decode_utf16(&[0xd7ff, 0xe000, 0xffff]), Some(vec!['\u{d7ff}', '\u{e000}', '\u{ffff}']));
}

#[test]
fn utf16_units_with_a_lone_surrogate_are_ill_formed() {
    assert_eq!(decode_utf16(&[0xd800]), None);
    assert_eq!(decode_utf16(&[0xdc00]), None);
    assert_eq!(decode_utf16(&[0x41, 0xd800, 0x41]), None);
    assert_eq!(decode_utf16(&[0xdc00, 0xd800]), None);
    assert_eq!(decode_utf16(&[0xd800, 0xd800, 0xdc00]), None);
    assert_eq!(decode_utf16(&[0x41, 0xd83d]), None);
}

#[test]
fn utf16_decoding_agrees_with_the_standard_library() {
    let samples: [&[u16]; 8] = [
        &[],
        &[0x48, 0x69],
        &[0xd83d, 0xde00, 0x21],
        &[0xd800],
        &[0xdfff, 0x41],
        &[0xd800, 0xdbff, 0xdc00],
        &[0xfffe, 0xffff, 0x0],
        &[0xdbff, 0xdfff, 0xd7ff, 0xe000],
    ];
    for units in samples {
        let expected = String::from_utf16(units).ok().map(|s| s.chars().collect::<Vec<char>>());
        assert_eq!(decode_utf16(units), expected);
    }
}

#[test]
fn declared_encoding_is_used() {
    assert_eq!(decode_pdf_text_robust(None, b"Hello"), "Hello");
    assert_eq!(decode_pdf_text_robust(Some("StandardEncoding"), b"Hello"), "Hello");
    assert_eq!(decode_pdf_text_robust(Some("WinAnsiEncoding"), &[0xe9, 0x80]), "\u{e9}\u{20ac}");
    assert_eq!(decode_pdf_text_robust(Some("MacRomanEncoding"), &[0x8e]), "\u{e9}");
    assert_eq!(decode_pdf_text_robust(None, &[0xe9]), "\u{d8}");
    assert_eq!(decode_pdf_text_robust(Some("Custom"), "caf\u{e9}".as_bytes()), "caf\u{e9}");
}

#[test]
fn unusable_encoding_falls_back_on_the_bytes() {
    assert_eq!(decode_pdf_text_robust(Some("Identity-H"), b"Hi"), "Hi");
    assert_eq!(decode_pdf_text_robust(Some("Identity-H"), &[0x04, 0x1f, 0x04, 0x40]), "\u{41f}\u{440}");
    assert_eq!(decode_pdf_text_robust(Some("Identity-H"), &[0x01]), "");
    assert_eq!(decode_pdf_text_robust(None, &[0x01]), "");
    assert_eq!(decode_pdf_text_robust(None, b"   "), "   ");
    assert_eq!(decode_pdf_text_robust(None, &[]), "");
}

#[test]
fn decoding_is_total() {
    let encodings = [
        None,
        Some("StandardEncoding"),
        Some("MacRomanEncoding"),
        Some("MacExpertEncoding"),
        Some("WinAnsiEncoding"),
        Some("UniGB-UCS2-H"),
        Some("Identity-H"),
        Some(""),
        Some("nonsense"),
    ];
    let mut data: Vec<u8> = Vec::new();
    for n in 0..600u32 {
        for encoding in encodings {
            let text = decode_pdf_text_robust(encoding, &data);
            assert!(text.len() <= 4 * data.len() + 4);
        }
        data.push((n * 151 % 256) as u8);
    }
}

fn listed_as_white_space(c: char) -> bool {
    matches!(
        c,
        ' ' | '\u{9}'..='\u{d}'
            | '\u{85}'
            | '\u{a0}'
            | '\u{1680}'
            | '\u{2000}'..='\u{200a}'
            | '\u{2028}'
            | '\u{2029}'
            | '\u{202f}'
            | '\u{205f}'
            | '\u{3000}'
    )
}

#[test]
fn white_space_is_what_is_listed() {
    let mut count = 0;
    for code in 0..=0x10ffff_u32 {
        if let Some(c) = char::from_u32(code) {
            assert_eq!(shiva::chars::is_blank(&[c]), listed_as_white_space(c), "{:?}", c);
            if listed_as_white_space(c) {
                count += 1;
            }
        }
    }
    assert_eq!(count, 25);
}

#[test]
fn of_ascii_letters_and_digits_alone_are_legible() {
    for code in 0..128_u32 {
        let c = char::from_u32(code).unwrap();
        let expected = c.is_ascii_alphanumeric() || listed_as_white_space(c);
        assert_eq!(shiva::chars::is_legible(&[c]), expected, "{:?}", c);
    }
    assert!(!shiva::chars::is_legible(&['\u{1}']));
    assert!(shiva::chars::is_legible(&['\u{e9}']));
    assert_eq!(decode_with_fallbacks(" ".to_string(), b" "), " ");
}
