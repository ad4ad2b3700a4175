//! The robust text decoder.
//!
//! Producers of PDF files declare wrong encodings or none. A string is first
//! decoded as its font declares. Where that gives nothing legible, the bytes
//! are tried as UTF-8, as UTF-16 in both byte orders and as Latin-1, and the
//! first legible result is taken. Decoding never fails: where nothing is
//! legible, the text is empty.

use vstd::prelude::*;
use vstd::utf8::{decode_utf8, valid_utf8};
use crate::chars::{
    alphanumeric,
    ascii_alphanumeric,
    blank,
    char_from_u32,
    chars_of,
    contains,
    contains_text,
    is_blank,
    is_legible,
    legible,
    string_from_utf8,
    string_of,
};
use crate::source::{encoding_view, standard_decode, standard_text};

verus! {

/// Whether the text that the declared encoding gave is refused: it is blank,
/// or it holds one of the marks that the standard decoding leaves where it has
/// no table for an encoding.
pub open spec fn refused(standard: Seq<char>) -> bool {
    contains_text(standard, "Unimplemented"@) || contains_text(standard, "Identity-H"@) || blank(
        standard,
    )
}

/// The sixteen-bit units of a byte string, the high byte first.
pub open spec fn units_be(data: Seq<u8>) -> Seq<u16> {
    Seq::new(data.len() / 2, |i: int| (data[2 * i] as int * 256 + data[2 * i + 1] as int) as u16)
}

/// The sixteen-bit units of a byte string, the low byte first.
pub open spec fn units_le(data: Seq<u8>) -> Seq<u16> {
    Seq::new(data.len() / 2, |i: int| (data[2 * i + 1] as int * 256 + data[2 * i] as int) as u16)
}

/// Whether a unit is the first half of a surrogate pair.
pub open spec fn is_high_surrogate(u: u16) -> bool {
    0xD800 <= u <= 0xDBFF
}

/// Whether a unit is the second half of a surrogate pair.
pub open spec fn is_low_surrogate(u: u16) -> bool {
    0xDC00 <= u <= 0xDFFF
}

/// The character that a surrogate pair stands for.
pub open spec fn paired(high: u16, low: u16) -> char {
    (0x10000 + (high - 0xD800) * 0x400 + (low - 0xDC00)) as char
}

/// The text that UTF-16 units encode: a unit outside the surrogate range is a
/// character by itself, a high surrogate with the low surrogate behind it is
/// one character, and a surrogate without its partner makes the whole
/// ill-formed.
pub open spec fn utf16_text(units: Seq<u16>) -> Option<Seq<char>>
    decreases units.len(),
{
    if units.len() == 0 {
        Some(Seq::empty())
    } else if !is_high_surrogate(units[0]) && !is_low_surrogate(units[0]) {
        match utf16_text(units.skip(1)) {
            Some(rest) => Some(seq![units[0] as char] + rest),
            None => None,
        }
    } else if is_high_surrogate(units[0]) && units.len() >= 2 && is_low_surrogate(units[1]) {
        match utf16_text(units.skip(2)) {
            Some(rest) => Some(seq![paired(units[0], units[1])] + rest),
            None => None,
        }
    } else {
        None
    }
}

/// The bytes read as Latin-1: each byte is the character with its number.
pub open spec fn latin1_text(data: Seq<u8>) -> Seq<char> {
    Seq::new(data.len(), |i: int| data[i] as char)
}

/// Whether the bytes can be read as UTF-16 at all: at least one unit, and no
/// byte left over.
pub open spec fn utf16_sized(data: Seq<u8>) -> bool {
    data.len() >= 2 && data.len() % 2 == 0
}

/// What the bytes are read as when the declared encoding is refused: the first
/// legible one of UTF-8, UTF-16 with the high byte first, UTF-16 with the low
/// byte first and Latin-1; the empty text where none is legible.
pub open spec fn fallback_text(data: Seq<u8>) -> Seq<char> {
    if valid_utf8(data) && legible(decode_utf8(data)) {
        decode_utf8(data)
    } else if utf16_sized(data) && utf16_text(units_be(data)) is Some && legible(
        utf16_text(units_be(data))->0,
    ) {
        utf16_text(units_be(data))->0
    } else if utf16_sized(data) && utf16_text(units_le(data)) is Some && legible(
        utf16_text(units_le(data))->0,
    ) {
        utf16_text(units_le(data))->0
    } else if legible(latin1_text(data)) {
        latin1_text(data)
    } else {
        Seq::empty()
    }
}

/// The text of a string, given what the declared encoding made of its bytes.
pub open spec fn robust_text(standard: Seq<char>, data: Seq<u8>) -> Seq<char> {
    if refused(standard) {
        fallback_text(data)
    } else {
        standard
    }
}

/// The text of a string under a declared encoding, or under none.
pub open spec fn decoded_text(encoding: Option<Seq<char>>, data: Seq<u8>) -> Seq<char> {
    robust_text(standard_text(encoding, data), data)
}

/// Decoding never comes back empty-handed without reason: the text is either
/// what the declared encoding gave, or one of the four readings of the bytes
/// and then legible, or empty.
pub proof fn lemma_decoded_text_cases(encoding: Option<Seq<char>>, data: Seq<u8>)
    ensures
        ({
            let text = decoded_text(encoding, data);
            ||| text == standard_text(encoding, data) && !refused(text)
            ||| legible(text) && refused(standard_text(encoding, data))
            ||| text.len() == 0 && refused(standard_text(encoding, data))
        }),
{
}

/// Whether some byte of a string is a letter or a digit of ASCII.
pub open spec fn has_word_byte(data: Seq<u8>) -> bool {
    exists|i: int| 0 <= i < data.len() && ascii_alphanumeric(#[trigger] data[i] as char)
}

/// A string with a letter or a digit of ASCII in it never decodes to nothing,
/// whatever encoding is declared: if the declared encoding gives nothing
/// usable, the bytes read as Latin-1 are legible at the least.
pub proof fn lemma_words_are_kept(encoding: Option<Seq<char>>, data: Seq<u8>)
    requires
        has_word_byte(data),
    ensures
        decoded_text(encoding, data).len() > 0,
{
    let standard = standard_text(encoding, data);
    if refused(standard) {
        let i = choose|i: int| 0 <= i < data.len() && ascii_alphanumeric(#[trigger] data[i] as char);
        let plain = latin1_text(data);
        assert(plain[i] == data[i] as char);
        assert(alphanumeric(plain[i]));
        assert(legible(plain));
        let text = fallback_text(data);
        assert(legible(text));
    } else {
        assert(!blank(standard));
    }
}

/// The units of a byte string of even length, in the given byte order.
fn units_of(data: &[u8], high_first: bool) -> (units: Vec<u16>)
    requires
        data.len() % 2 == 0,
    ensures
        units@ == if high_first {
            units_be(data@)
        } else {
            units_le(data@)
        },
{
    let n = data.len() / 2;
    let mut units: Vec<u16> = Vec::new();
    let mut i: usize = 0;
    while i < n
        invariant
            i <= n,
            n == data.len() / 2,
            data.len() % 2 == 0,
            units.len() == i,
            forall|k: int|
                0 <= k < i ==> units@[k] == if high_first {
                    units_be(data@)[k]
                } else {
                    units_le(data@)[k]
                },
        decreases n - i,
    {
        let first: u16 = data[2 * i] as u16;
        let second: u16 = data[2 * i + 1] as u16;
        if high_first {
            units.push(first * 256 + second);
        } else {
            units.push(second * 256 + first);
        }
        i += 1;
    }
    proof {
        if high_first {
            assert(units@ =~= units_be(data@));
        } else {
            assert(units@ =~= units_le(data@));
        }
    }
    units
}

/// Decodes UTF-16 units; `None` where they are ill-formed.
pub fn decode_utf16(units: &[u16]) -> (r: Option<Vec<char>>)
    ensures
        match r {
            Some(text) => utf16_text(units@) == Some(text@),
            None => utf16_text(units@) is None,
        },
{
    let mut text: Vec<char> = Vec::new();
    let mut i: usize = 0;
    proof {
        assert(units@.skip(0) =~= units@);
        if let Some(rest) = utf16_text(units@) {
            assert(text@ + rest =~= rest);
        }
    }
    while i < units.len()
        invariant
            i <= units.len(),
            utf16_text(units@) == match utf16_text(units@.skip(i as int)) {
                Some(rest) => Some(text@ + rest),
                None => None,
            },
        decreases units.len() - i,
    {
        let ghost rest = units@.skip(i as int);
        let u: u16 = units[i];
        assert(rest[0] == u);
        if u < 0xD800 || u > 0xDFFF {
            let c = char_from_u32(u as u32);
            assert(c == Some(u as char));
            proof {
                assert(rest.skip(1) =~= units@.skip(i + 1));
                if let Some(tail) = utf16_text(rest.skip(1)) {
                    assert(text@ + (seq![u as char] + tail) =~= text@.push(u as char) + tail);
                }
            }
            text.push(c.unwrap());
            i += 1;
        } else if u <= 0xDBFF && units.len() - i >= 2 && 0xDC00 <= units[i + 1] && units[i + 1]
            <= 0xDFFF {
            let v: u16 = units[i + 1];
            assert(rest[1] == v);
            let code: u32 = 0x10000 + ((u - 0xD800) as u32) * 0x400 + ((v - 0xDC00) as u32);
            let c = char_from_u32(code);
            assert(c == Some(paired(u, v)));
            proof {
                assert(rest.skip(2) =~= units@.skip(i + 2));
                if let Some(tail) = utf16_text(rest.skip(2)) {
                    assert(text@ + (seq![paired(u, v)] + tail) =~= text@.push(paired(u, v)) + tail);
                }
            }
            text.push(c.unwrap());
            i += 2;
        } else {
            assert(utf16_text(rest) is None);
            return None;
        }
    }
    proof {
        assert(units@.skip(i as int) =~= Seq::<u16>::empty());
        assert(text@ + Seq::<char>::empty() =~= text@);
    }
    Some(text)
}

/// The bytes read as Latin-1.
fn decode_latin1(data: &[u8]) -> (text: Vec<char>)
    ensures
        text@ == latin1_text(data@),
{
    let mut text: Vec<char> = Vec::new();
    let mut i: usize = 0;
    while i < data.len()
        invariant
            i <= data.len(),
            text.len() == i,
            forall|k: int| 0 <= k < i ==> text@[k] == data@[k] as char,
        decreases data.len() - i,
    {
        text.push(data[i] as char);
        i += 1;
    }
    assert(text@ =~= latin1_text(data@));
    text
}

/// Reads bytes without a usable encoding: the first legible reading of the
/// four, or the empty text.
pub fn decode_fallback(data: &[u8]) -> (text: String)
    ensures
        text@ == fallback_text(data@),
{
    match string_from_utf8(data) {
        Some(text) => {
            let chars = chars_of(text.as_str());
            if is_legible(chars.as_slice()) {
                return text;
            }
        },
        None => {},
    }
    if data.len() >= 2 && data.len() % 2 == 0 {
        let high_first = units_of(data, true);
        match decode_utf16(high_first.as_slice()) {
            Some(chars) => {
                if is_legible(chars.as_slice()) {
                    return string_of(chars.as_slice());
                }
            },
            None => {},
        }
        let low_first = units_of(data, false);
        match decode_utf16(low_first.as_slice()) {
            Some(chars) => {
                if is_legible(chars.as_slice()) {
                    return string_of(chars.as_slice());
                }
            },
            None => {},
        }
    }
    let chars = decode_latin1(data);
    if is_legible(chars.as_slice()) {
        return string_of(chars.as_slice());
    }
    String::new()
}

/// Settles the text of a string, given what the declared encoding made of its
/// bytes: that text, unless it is refused; then a reading of the bytes
/// themselves.
pub fn decode_with_fallbacks(standard: String, data: &[u8]) -> (text: String)
    ensures
        text@ == robust_text(standard@, data@),
{
    let chars = chars_of(standard.as_str());
    let unimplemented = chars_of("Unimplemented");
    let identity = chars_of("Identity-H");
    if contains(chars.as_slice(), unimplemented.as_slice()) || contains(
        chars.as_slice(),
        identity.as_slice(),
    ) || is_blank(chars.as_slice()) {
        decode_fallback(data)
    } else {
        standard
    }
}

/// Decodes the bytes of a string under the encoding that its font declares,
/// falling back on the bytes themselves where that gives nothing usable.
pub fn decode_pdf_text_robust(encoding: Option<&str>, data: &[u8]) -> (text: String)
    ensures
        text@ == decoded_text(encoding_view(encoding), data@),
{
    let standard = standard_decode(encoding, data);
    decode_with_fallbacks(standard, data)
}

} // verus!
