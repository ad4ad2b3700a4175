//! Base64 with the standard alphabet, padded, without line breaks.
//!
//! Three bytes become four symbols of six bits each. A last group of one or
//! two bytes is filled up with zero bits and closed with `=`. Decoding accepts
//! exactly the texts that encoding produces: a text with a foreign character,
//! a length that is no multiple of four, padding anywhere but at the end, or
//! fill bits that are not zero is refused.

use vstd::prelude::*;
use crate::chars::{chars_of, push_char};

verus! {

/// The text is not the base64 encoding of any byte sequence.
#[derive(Debug, Clone, Copy, PartialEq, Eq)]
pub struct DecodeError;

/// The symbol that stands for a six-bit value.
pub open spec fn symbol(v: int) -> char {
    if v < 26 {
        (65 + v) as char
    } else if v < 52 {
        (71 + v) as char
    } else if v < 62 {
        (v - 4) as char
    } else if v == 62 {
        '+'
    } else {
        '/'
    }
}

/// The six-bit value that a symbol stands for.
pub open spec fn value(c: char) -> Option<int> {
    let u = c as int;
    if 65 <= u <= 90 {
        Some(u - 65)
    } else if 97 <= u <= 122 {
        Some(u - 71)
    } else if 48 <= u <= 57 {
        Some(u + 4)
    } else if c == '+' {
        Some(62)
    } else if c == '/' {
        Some(63)
    } else {
        None
    }
}

/// The byte at `i`, or zero past the end: the bits that fill up a last group.
pub open spec fn byte_or_zero(bytes: Seq<u8>, i: int) -> int {
    if 0 <= i < bytes.len() {
        bytes[i] as int
    } else {
        0
    }
}

/// The character at index `i` of the encoding of `bytes`.
pub open spec fn encoded_char(bytes: Seq<u8>, i: int) -> char {
    let g = 3 * (i / 4);
    let p = i % 4;
    if p == 0 {
        symbol(byte_or_zero(bytes, g) / 4)
    } else if p == 1 {
        symbol((byte_or_zero(bytes, g) % 4) * 16 + byte_or_zero(bytes, g + 1) / 16)
    } else if p == 2 {
        if g + 1 < bytes.len() {
            symbol((byte_or_zero(bytes, g + 1) % 16) * 4 + byte_or_zero(bytes, g + 2) / 64)
        } else {
            '='
        }
    } else {
        if g + 2 < bytes.len() {
            symbol(byte_or_zero(bytes, g + 2) % 64)
        } else {
            '='
        }
    }
}

/// The length of the encoding of `n` bytes.
pub open spec fn encoded_len(n: int) -> int {
    4 * ((n + 2) / 3)
}

/// The base64 encoding of a byte sequence.
pub open spec fn encoded(bytes: Seq<u8>) -> Seq<char> {
    Seq::new(encoded_len(bytes.len() as int) as nat, |i: int| encoded_char(bytes, i))
}

/// The number of `=` that close a text: none, one or two.
pub open spec fn padding(text: Seq<char>) -> int {
    if text.len() >= 2 && text[text.len() - 2] == '=' {
        2
    } else if text.len() >= 1 && text[text.len() - 1] == '=' {
        1
    } else {
        0
    }
}

/// The six-bit value at index `i`; zero where the text holds no symbol.
pub open spec fn sextet(text: Seq<char>, i: int) -> int {
    match value(text[i]) {
        Some(v) => v,
        None => 0,
    }
}

/// Whether a text is the encoding of some byte sequence: whole groups of four,
/// symbols everywhere before the padding, `=` only in the last one or two
/// places, and zero fill bits before it.
pub open spec fn well_formed(text: Seq<char>) -> bool {
    let n = text.len() as int;
    let pad = padding(text);
    &&& n % 4 == 0
    &&& forall|i: int| 0 <= i < n - pad ==> (#[trigger] value(text[i])) is Some
    &&& pad == 2 ==> text[n - 1] == '=' && sextet(text, n - 3) % 16 == 0
    &&& pad == 1 ==> sextet(text, n - 2) % 4 == 0
}

/// The byte at index `j` of what a well-formed text decodes to.
pub open spec fn decoded_byte(text: Seq<char>, j: int) -> u8 {
    let g = 4 * (j / 3);
    let k = j % 3;
    if k == 0 {
        (sextet(text, g) * 4 + sextet(text, g + 1) / 16) as u8
    } else if k == 1 {
        ((sextet(text, g + 1) % 16) * 16 + sextet(text, g + 2) / 4) as u8
    } else {
        ((sextet(text, g + 2) % 4) * 64 + sextet(text, g + 3)) as u8
    }
}

/// The number of bytes that a well-formed text decodes to.
pub open spec fn decoded_len(text: Seq<char>) -> int {
    3 * (text.len() / 4) - padding(text)
}

/// What a text decodes to, if it is well formed.
pub open spec fn decoded(text: Seq<char>) -> Option<Seq<u8>> {
    if well_formed(text) {
        Some(Seq::new(decoded_len(text) as nat, |j: int| decoded_byte(text, j)))
    } else {
        None
    }
}

/// A symbol stands for the value it was chosen for, and is never the padding
/// character.
pub proof fn lemma_value_of_symbol(v: int)
    requires
        0 <= v < 64,
    ensures
        value(symbol(v)) == Some(v),
        symbol(v) != '=',
{
}

/// Decoding is the inverse of encoding: every byte sequence comes back from
/// its encoding unchanged.
pub proof fn lemma_round_trip(bytes: Seq<u8>)
    ensures
        decoded(encoded(bytes)) == Some(bytes),
{
    let text = encoded(bytes);
    let len = bytes.len() as int;
    let n = text.len() as int;
    assert(n == 4 * ((len + 2) / 3));
    assert forall|i: int| 0 <= i < n implies (text[i] == '=' <==> (i % 4 == 2 && 3 * (i / 4) + 1
        >= len) || (i % 4 == 3 && 3 * (i / 4) + 2 >= len)) by {
        lemma_symbols(bytes, i);
    }
    if len % 3 == 1 {
        assert(text[n - 2] == '=');
        assert(padding(text) == 2);
        lemma_symbols(bytes, n - 3);
    } else if len % 3 == 2 {
        assert(text[n - 1] == '=');
        assert(text[n - 2] != '=');
        assert(padding(text) == 1);
        lemma_symbols(bytes, n - 2);
    } else {
        if n > 0 {
            assert(text[n - 1] != '=');
            assert(text[n - 2] != '=');
        }
        assert(padding(text) == 0);
    }
    let pad = padding(text);
    assert(3 * (n / 4) - pad == len);
    assert forall|i: int| 0 <= i < n - pad implies (#[trigger] value(text[i])) is Some by {
        lemma_symbols(bytes, i);
    }
    assert(well_formed(text));
    let back = decoded(text)->0;
    assert(back.len() == len);
    assert forall|j: int| 0 <= j < len implies back[j] == bytes[j] by {
        let g = 4 * (j / 3);
        lemma_symbols(bytes, g);
        lemma_symbols(bytes, g + 1);
        lemma_symbols(bytes, g + 2);
        lemma_symbols(bytes, g + 3);
    }
    assert(back =~= bytes);
}

/// What each place of an encoding holds: its six bits, or the padding
/// character where the bytes have run out.
proof fn lemma_symbols(bytes: Seq<u8>, i: int)
    requires
        0 <= i < encoded_len(bytes.len() as int),
    ensures
        ({
            let g = 3 * (i / 4);
            let p = i % 4;
            let c = encoded(bytes)[i];
            &&& p == 0 ==> value(c) == Some(byte_or_zero(bytes, g) / 4)
            &&& p == 1 ==> value(c) == Some(
                (byte_or_zero(bytes, g) % 4) * 16 + byte_or_zero(bytes, g + 1) / 16,
            )
            &&& p == 2 && g + 1 < bytes.len() ==> value(c) == Some(
                (byte_or_zero(bytes, g + 1) % 16) * 4 + byte_or_zero(bytes, g + 2) / 64,
            )
            &&& p == 3 && g + 2 < bytes.len() ==> value(c) == Some(byte_or_zero(bytes, g + 2) % 64)
            &&& c == '=' <==> (p == 2 && g + 1 >= bytes.len()) || (p == 3 && g + 2 >= bytes.len())
        }),
{
    let g = 3 * (i / 4);
    let p = i % 4;
    let b0 = byte_or_zero(bytes, g);
    let b1 = byte_or_zero(bytes, g + 1);
    let b2 = byte_or_zero(bytes, g + 2);
    lemma_value_of_symbol(b0 / 4);
    lemma_value_of_symbol((b0 % 4) * 16 + b1 / 16);
    lemma_value_of_symbol((b1 % 16) * 4 + b2 / 64);
    lemma_value_of_symbol(b2 % 64);
}

fn symbol_for(v: u8) -> (c: char)
    requires
        v < 64,
    ensures
        c == symbol(v as int),
{
    if v < 26 {
        (65u8 + v) as char
    } else if v < 52 {
        (71u8 + v) as char
    } else if v < 62 {
        (v - 4u8) as char
    } else if v == 62 {
        '+'
    } else {
        '/'
    }
}

fn value_of(c: char) -> (r: Option<u8>)
    ensures
        match r {
            Some(v) => value(c) == Some(v as int) && v < 64,
            None => value(c) is None,
        },
{
    let u: u32 = c as u32;
    if 65 <= u && u <= 90 {
        Some((u - 65) as u8)
    } else if 97 <= u && u <= 122 {
        Some((u - 71) as u8)
    } else if 48 <= u && u <= 57 {
        Some((u + 4) as u8)
    } else if c == '+' {
        Some(62)
    } else if c == '/' {
        Some(63)
    } else {
        None
    }
}

/// Encodes bytes as base64 text.
pub fn encode(bytes: &[u8]) -> (text: String)
    ensures
        text@ == encoded(bytes@),
{
    let mut text = String::new();
    let n = bytes.len();
    let whole: usize = n / 3;
    let mut k: usize = 0;
    while k < whole
        invariant
            k <= whole,
            whole == n / 3,
            n == bytes.len(),
            text@.len() == 4 * k,
            forall|i: int| 0 <= i < text@.len() ==> text@[i] == encoded_char(bytes@, i),
        decreases whole - k,
    {
        let ghost before = text@;
        let b0: u8 = bytes[3 * k];
        let b1: u8 = bytes[3 * k + 1];
        let b2: u8 = bytes[3 * k + 2];
        push_char(&mut text, symbol_for(b0 / 4));
        push_char(&mut text, symbol_for((b0 % 4) * 16 + b1 / 16));
        push_char(&mut text, symbol_for((b1 % 16) * 4 + b2 / 64));
        push_char(&mut text, symbol_for(b2 % 64));
        proof {
            assert forall|i: int| 0 <= i < text@.len() implies text@[i] == encoded_char(
                bytes@,
                i,
            ) by {
                if i < 4 * k {
                    assert(text@[i] == before[i]);
                } else {
                    assert(i / 4 == k);
                }
            }
        }
        k += 1;
    }
    if n % 3 != 0 {
        let ghost before = text@;
        let b0: u8 = bytes[3 * whole];
        let b1: u8 = if n % 3 == 2 { bytes[3 * whole + 1] } else { 0 };
        push_char(&mut text, symbol_for(b0 / 4));
        push_char(&mut text, symbol_for((b0 % 4) * 16 + b1 / 16));
        if n % 3 == 2 {
            push_char(&mut text, symbol_for((b1 % 16) * 4));
        } else {
            push_char(&mut text, '=');
        }
        push_char(&mut text, '=');
        proof {
            assert forall|i: int| 0 <= i < text@.len() implies text@[i] == encoded_char(
                bytes@,
                i,
            ) by {
                if i < 4 * whole {
                    assert(text@[i] == before[i]);
                } else {
                    assert(i / 4 == whole);
                }
            }
        }
    }
    assert(text@ =~= encoded(bytes@));
    text
}

/// Decodes base64 text; refuses a text that is no encoding.
pub fn decode(text: &str) -> (r: Result<Vec<u8>, DecodeError>)
    ensures
        match r {
            Ok(bytes) => decoded(text@) == Some(bytes@),
            Err(_) => decoded(text@) is None,
        },
{
    let chars = chars_of(text);
    let n = chars.len();
    if n % 4 != 0 {
        return Err(DecodeError);
    }
    let pad: usize = if n >= 2 && chars[n - 2] == '=' {
        2
    } else if n >= 1 && chars[n - 1] == '=' {
        1
    } else {
        0
    };
    if pad == 2 && chars[n - 1] != '=' {
        return Err(DecodeError);
    }
    let mut values: Vec<u8> = Vec::new();
    let mut i: usize = 0;
    while i < n
        invariant
            i <= n,
            pad <= n,
            pad == padding(text@),
            n == chars.len(),
            chars@ == text@,
            values.len() == i,
            forall|k: int| 0 <= k < i ==> sextet(text@, k) == #[trigger] values@[k] as int,
            forall|k: int| 0 <= k < i ==> (#[trigger] values@[k]) < 64,
            forall|k: int| 0 <= k < i && k < n - pad ==> (#[trigger] value(text@[k])) is Some,
        decreases n - i,
    {
        match value_of(chars[i]) {
            Some(v) => {
                values.push(v);
            },
            None => {
                if i < n - pad {
                    assert(value(text@[i as int]) is None);
                    return Err(DecodeError);
                }
                values.push(0);
            },
        }
        i += 1;
    }
    if pad == 2 && values[n - 3] % 16 != 0 {
        return Err(DecodeError);
    }
    if pad == 1 && values[n - 2] % 4 != 0 {
        return Err(DecodeError);
    }
    assert(well_formed(text@));
    let total: usize = 3 * (n / 4) - pad;
    let mut bytes: Vec<u8> = Vec::new();
    let mut b: usize = 0;
    while b < total
        invariant
            b <= total,
            total == 3 * (n / 4) - pad,
            pad <= 2,
            n % 4 == 0,
            n == text@.len(),
            values.len() == n,
            bytes.len() == b,
            forall|k: int| 0 <= k < n ==> sextet(text@, k) == #[trigger] values@[k] as int,
            forall|k: int| 0 <= k < n ==> (#[trigger] values@[k]) < 64,
            forall|k: int| 0 <= k < b ==> bytes@[k] == decoded_byte(text@, k),
        decreases total - b,
    {
        let g: usize = 4 * (b / 3);
        let k: usize = b % 3;
        let byte: u8 = if k == 0 {
            values[g] * 4 + values[g + 1] / 16
        } else if k == 1 {
            (values[g + 1] % 16) * 16 + values[g + 2] / 4
        } else {
            (values[g + 2] % 4) * 64 + values[g + 3]
        };
        bytes.push(byte);
        b += 1;
    }
    assert(bytes@ =~= decoded(text@)->0);
    Ok(bytes)
}

} // verus!
