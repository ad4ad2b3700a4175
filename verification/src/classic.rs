//! The classic form of a PDF file, told from its bytes.
//!
//! `lopdf` reads a file by the offsets and references that the file itself
//! gives. On some files that reading does not come to an end: a
//! cross-reference section that names itself as the earlier one is read again
//! and again, a stream whose length is a reference is read by reading another
//! object first, and every array and dictionary that is open takes room on the
//! stack. Object streams and cross-reference streams are unpacked and then
//! read by numbers that the file gives. None of this can be followed without
//! reading the file as `lopdf` does, so the library looks at the bytes alone
//! and reads only a file in which none of it can occur, wherever in the file
//! the reading may begin. Such a file is called classic here: it has one
//! cross-reference table, written out, and says the length of each stream in
//! place. Every other file is refused, also where `lopdf` would have read it.

use vstd::prelude::*;
use crate::source::{nesting_step, Nesting, NESTING_LIMIT};

verus! {

/// The most bytes that a file may have.
pub const SIZE_LIMIT: usize = 0x7fff_ffff;

/// Whether a byte is white space between the parts of a file.
pub open spec fn blank(byte: u8) -> bool {
    byte == 32 || byte == 9 || byte == 10 || byte == 13 || byte == 0 || byte == 12
}

/// Whether a byte can stand in a name: neither white space nor one of
/// `( ) < > [ ] { } / %`.
pub open spec fn regular(byte: u8) -> bool {
    !blank(byte) && byte != 40 && byte != 41 && byte != 60 && byte != 62 && byte != 91 && byte
        != 93 && byte != 123 && byte != 125 && byte != 47 && byte != 37
}

/// Whether a byte is a decimal digit.
pub open spec fn digit(byte: u8) -> bool {
    48 <= byte <= 57
}

/// What a hexadecimal digit stands for.
pub open spec fn hex(byte: u8) -> Option<int> {
    if 48 <= byte <= 57 {
        Some(byte - 48)
    } else if 65 <= byte <= 70 {
        Some(byte - 55)
    } else if 97 <= byte <= 102 {
        Some(byte - 87)
    } else {
        None
    }
}

/// The bytes `%PDF-`, with which a file starts.
pub open spec fn head_word() -> Seq<u8> {
    seq![37u8, 80u8, 68u8, 70u8, 45u8]
}

/// The bytes `xref`, with which a cross-reference table starts.
pub open spec fn table_word() -> Seq<u8> {
    seq![120u8, 114u8, 101u8, 102u8]
}

/// The bytes of the name `Prev`, under which a cross-reference section names
/// the one before it.
pub open spec fn earlier_word() -> Seq<u8> {
    seq![80u8, 114u8, 101u8, 118u8]
}

/// The bytes of the name `ObjStm`, the type of an object stream.
pub open spec fn packed_word() -> Seq<u8> {
    seq![79u8, 98u8, 106u8, 83u8, 116u8, 109u8]
}

/// The bytes of the name `Length`, under which a stream says how long it is.
pub open spec fn length_word() -> Seq<u8> {
    seq![76u8, 101u8, 110u8, 103u8, 116u8, 104u8]
}

/// The bytes `startxref`, behind which a file says where its cross-reference
/// section stands.
pub open spec fn start_word() -> Seq<u8> {
    seq![115u8, 116u8, 97u8, 114u8, 116u8, 120u8, 114u8, 101u8, 102u8]
}

/// The bytes `obj`, behind which an object stands.
pub open spec fn object_word() -> Seq<u8> {
    seq![111u8, 98u8, 106u8]
}

/// The bytes `trailer`, behind which the dictionary of the trailer stands.
pub open spec fn trailer_word() -> Seq<u8> {
    seq![116u8, 114u8, 97u8, 105u8, 108u8, 101u8, 114u8]
}

/// Whether the bytes of `word` stand in `data` at `at`.
pub open spec fn stands(data: Seq<u8>, at: int, word: Seq<u8>) -> bool {
    0 <= at && at + word.len() <= data.len() && data.subrange(at, at + word.len()) == word
}

/// Where the spelling of `word` from its byte `from` on ends, if it starts at
/// `at`. In a name a byte is written as it is, or as `#` and two hexadecimal
/// digits.
pub open spec fn spelled(data: Seq<u8>, at: int, word: Seq<u8>, from: int) -> Option<int>
    decreases word.len() - from,
{
    if from < 0 || from >= word.len() {
        Some(at)
    } else if 0 <= at < data.len() && data[at] == word[from] {
        spelled(data, at + 1, word, from + 1)
    } else if 0 <= at && at + 2 < data.len() && data[at] == 35 && hex(data[at + 1]) is Some && hex(
        data[at + 2],
    ) is Some && 16 * hex(data[at + 1]).unwrap() + hex(data[at + 2]).unwrap() == word[from] {
        spelled(data, at + 3, word, from + 1)
    } else {
        None
    }
}

/// Where the name `word` ends, if it stands at `at` behind a `/` and no byte
/// of a longer name follows it.
pub open spec fn name_end(data: Seq<u8>, at: int, word: Seq<u8>) -> Option<int> {
    if 0 <= at < data.len() && data[at] == 47 {
        match spelled(data, at + 1, word, 0) {
            Some(end) => if end < data.len() && regular(data[end]) && data[end] != 35 {
                None
            } else {
                Some(end)
            },
            None => None,
        }
    } else {
        None
    }
}

/// The first place from `at` on that holds no white space.
pub open spec fn blank_end(data: Seq<u8>, at: int) -> int
    decreases data.len() - at,
{
    if 0 <= at < data.len() && blank(data[at]) {
        blank_end(data, at + 1)
    } else {
        at
    }
}

/// The first place from `at` on that holds no digit.
pub open spec fn digits_end(data: Seq<u8>, at: int) -> int
    decreases data.len() - at,
{
    if 0 <= at < data.len() && digit(data[at]) {
        digits_end(data, at + 1)
    } else {
        at
    }
}

/// The number that the digits from `from` up to `to` write.
pub open spec fn number(data: Seq<u8>, from: int, to: int) -> nat
    decreases to - from,
{
    if to <= from || to > data.len() || from < 0 {
        0
    } else {
        number(data, from, to - 1) * 10 + (data[to - 1] - 48) as nat
    }
}

/// Whether what follows the name `Length` at `at` is no reference: neither a
/// comment nor a number with a second number behind it.
pub open spec fn length_in_place(data: Seq<u8>, at: int) -> bool {
    let value = blank_end(data, at);
    if value < 0 || value >= data.len() {
        true
    } else if data[value] == 37 {
        false
    } else if !digit(data[value]) {
        true
    } else {
        let next = blank_end(data, digits_end(data, value));
        next >= data.len() || (data[next] != 37 && !digit(data[next]))
    }
}

/// Where the end of a line that starts at `at` ends.
pub open spec fn line_end(data: Seq<u8>, at: int) -> Option<int> {
    if 0 <= at && at + 1 < data.len() && data[at] == 13 && data[at + 1] == 10 {
        Some(at + 2)
    } else if 0 <= at < data.len() && (data[at] == 10 || data[at] == 13) {
        Some(at + 1)
    } else {
        None
    }
}

/// Whether the offset that follows `startxref` at `at`, if one follows, is
/// beyond the file or the place of a cross-reference table, which starts
/// with `xref`. An offset with a sign is none of these.
pub open spec fn table_marked(data: Seq<u8>, at: int) -> bool {
    match line_end(data, at) {
        None => true,
        Some(first) => if first >= data.len() {
            true
        } else if data[first] == 43 || data[first] == 45 {
            false
        } else {
            let end = digits_end(data, first);
            end == first || number(data, first, end) > data.len() || stands(
                data,
                number(data, first, end) as int,
                table_word(),
            )
        },
    }
}

/// Whether `at` is the start of a line.
pub open spec fn line_start(data: Seq<u8>, at: int) -> bool {
    at == 0 || (0 < at <= data.len() && (data[at - 1] == 10 || data[at - 1] == 13))
}

/// Whether a number that starts the line at `at` and has a blank behind it,
/// as the first number of a section of a cross-reference table has, is within
/// [`SIZE_LIMIT`].
pub open spec fn section_small(data: Seq<u8>, at: int) -> bool {
    let end = digits_end(data, at);
    line_start(data, at) && at < end < data.len() && data[end] == 32 ==> number(data, at, end)
        <= SIZE_LIMIT
}

/// The scan for nesting before its first byte.
pub open spec fn outside() -> Nesting {
    Nesting { depth: 0, deepest: 0, parens: 0, escaped: false, comment: false }
}

/// Whether a byte can stand before an array or a dictionary, or start one:
/// white space, the `%` of a comment, `[` and `<`.
pub open spec fn leading(byte: u8) -> bool {
    blank(byte) || byte == 37 || byte == 91 || byte == 60
}

/// Whether the scan for nesting that goes on from `at` stays within
/// [`NESTING_LIMIT`]. The scan ends where what stands there is neither an
/// array nor a dictionary, where all that was opened is closed, and at the
/// end of the file. Of a trailer more is asked: up to the end of the scan it
/// holds no name `Prev`.
pub open spec fn tame(data: Seq<u8>, at: int, scan: Nesting, trailer: bool) -> bool
    decreases data.len() - at,
{
    if at < 0 || at >= data.len() {
        true
    } else if scan.depth == 0 && scan.parens == 0 && !scan.comment && !leading(data[at]) {
        true
    } else if trailer && name_end(data, at, earlier_word()) is Some {
        false
    } else {
        let next = nesting_step(scan, data[at]);
        if next.depth > NESTING_LIMIT {
            false
        } else if next.depth == 0 && scan.depth > 0 {
            true
        } else {
            tame(data, at + 1, next, trailer)
        }
    }
}

/// Whether what is read from behind `word` at `at`, if `word` stands there,
/// is tame.
pub open spec fn tame_behind(data: Seq<u8>, at: int, word: Seq<u8>, trailer: bool) -> bool {
    stands(data, at, word) ==> tame(data, at + word.len(), outside(), trailer)
}

/// What a classic file keeps to at one place:
/// - no name `ObjStm`, the type of an object stream;
/// - behind the name `Length`, no reference;
/// - behind `startxref`, the place of a cross-reference table;
/// - at the start of a line, no number of a section beyond the limit;
/// - behind `obj`, where an object is read, no nesting beyond the limit;
/// - behind `trailer` neither that nor the name `Prev`, which leads to an
///   earlier cross-reference section.
pub open spec fn classic_at(data: Seq<u8>, at: int) -> bool {
    &&& name_end(data, at, packed_word()) is None
    &&& match name_end(data, at, length_word()) {
        Some(end) => length_in_place(data, end),
        None => true,
    }
    &&& stands(data, at, start_word()) ==> table_marked(data, at + 9)
    &&& section_small(data, at)
    &&& tame_behind(data, at, object_word(), false)
    &&& tame_behind(data, at, trailer_word(), true)
}

/// Whether a file is classic: it starts as a PDF file does, is no longer than
/// [`SIZE_LIMIT`], and keeps to the classic form at every place.
pub open spec fn classic(data: Seq<u8>) -> bool {
    &&& data.len() <= SIZE_LIMIT
    &&& stands(data, 0, head_word())
    &&& forall|at: int| 0 <= at < data.len() ==> #[trigger] classic_at(data, at)
}

/// Whether the bytes of `word` stand in `data` at `at`.
pub fn is_standing(data: &[u8], at: usize, word: &[u8]) -> (r: bool)
    ensures
        r == stands(data@, at as int, word@),
{
    if at > data.len() || data.len() - at < word.len() {
        return false;
    }
    let mut k: usize = 0;
    while k < word.len()
        invariant
            k <= word.len(),
            at + word.len() <= data.len(),
            forall|j: int| 0 <= j < k ==> data@[at + j] == word@[j],
        decreases word.len() - k,
    {
        if data[at + k] != word[k] {
            assert(data@.subrange(at as int, at + word.len())[k as int] != word@[k as int]);
            return false;
        }
        k += 1;
    }
    assert(data@.subrange(at as int, at + word.len()) =~= word@);
    true
}

/// What a hexadecimal digit stands for.
fn hex_value(byte: u8) -> (r: Option<u8>)
    ensures
        match r {
            Some(value) => hex(byte) == Some(value as int),
            None => hex(byte) is None,
        },
{
    if 48 <= byte && byte <= 57 {
        Some(byte - 48)
    } else if 65 <= byte && byte <= 70 {
        Some(byte - 55)
    } else if 97 <= byte && byte <= 102 {
        Some(byte - 87)
    } else {
        None
    }
}

/// Whether one byte of a name is spelled at `at`, and in how many bytes.
fn spelled_byte(data: &[u8], at: usize, byte: u8) -> (r: Option<usize>)
    requires
        at <= data.len(),
    ensures
        match r {
            Some(width) => (width == 1 || width == 3) && at + width <= data.len() && forall|
                word: Seq<u8>,
                from: int,
            |
                0 <= from < word.len() && word[from] == byte ==> #[trigger] spelled(
                    data@,
                    at as int,
                    word,
                    from,
                ) == spelled(data@, at + width, word, from + 1),
            None => forall|word: Seq<u8>, from: int|
                0 <= from < word.len() && word[from] == byte ==> #[trigger] spelled(
                    data@,
                    at as int,
                    word,
                    from,
                ) is None,
        },
{
    if at < data.len() && data[at] == byte {
        return Some(1);
    }
    if at < data.len() && data.len() - at > 2 && data[at] == 35 {
        match (hex_value(data[at + 1]), hex_value(data[at + 2])) {
            (Some(high), Some(low)) => {
                if high == byte / 16 && low == byte % 16 {
                    return Some(3);
                }
            },
            _ => {},
        }
    }
    None
}

/// Where the name `word` ends, if it stands at `at`.
fn find_name_end(data: &[u8], at: usize, word: &[u8]) -> (r: Option<usize>)
    requires
        at < data.len(),
    ensures
        match r {
            Some(end) => name_end(data@, at as int, word@) == Some(end as int) && end
                <= data.len(),
            None => name_end(data@, at as int, word@) is None,
        },
{
    if data[at] != 47 {
        return None;
    }
    let mut place: usize = at + 1;
    let mut k: usize = 0;
    while k < word.len()
        invariant
            k <= word.len(),
            place <= data.len(),
            spelled(data@, at + 1, word@, 0) == spelled(data@, place as int, word@, k as int),
        decreases word.len() - k,
    {
        match spelled_byte(data, place, word[k]) {
            Some(width) => {
                place = place + width;
            },
            None => {
                return None;
            },
        }
        k += 1;
    }
    if place < data.len() && is_regular(data[place]) && data[place] != 35 {
        None
    } else {
        Some(place)
    }
}

/// Whether a byte is white space between the parts of a file.
fn is_blank(byte: u8) -> (r: bool)
    ensures
        r == blank(byte),
{
    byte == 32 || byte == 9 || byte == 10 || byte == 13 || byte == 0 || byte == 12
}

/// Whether a byte can stand in a name.
fn is_regular(byte: u8) -> (r: bool)
    ensures
        r == regular(byte),
{
    !is_blank(byte) && byte != 40 && byte != 41 && byte != 60 && byte != 62 && byte != 91 && byte
        != 93 && byte != 123 && byte != 125 && byte != 47 && byte != 37
}

/// Whether a byte is a decimal digit.
fn is_digit(byte: u8) -> (r: bool)
    ensures
        r == digit(byte),
{
    48 <= byte && byte <= 57
}

/// The first place from `at` on that holds no white space.
fn find_blank_end(data: &[u8], at: usize) -> (r: usize)
    requires
        at <= data.len(),
    ensures
        r == blank_end(data@, at as int),
        at <= r <= data.len(),
{
    let mut place: usize = at;
    while place < data.len() && is_blank(data[place])
        invariant
            at <= place <= data.len(),
            blank_end(data@, at as int) == blank_end(data@, place as int),
        decreases data.len() - place,
    {
        place += 1;
    }
    place
}

/// The first place from `at` on that holds no digit.
fn find_digits_end(data: &[u8], at: usize) -> (r: usize)
    requires
        at <= data.len(),
    ensures
        r == digits_end(data@, at as int),
        at <= r <= data.len(),
        forall|i: int| at <= i < r ==> digit(#[trigger] data@[i]),
{
    let mut place: usize = at;
    while place < data.len() && is_digit(data[place])
        invariant
            at <= place <= data.len(),
            digits_end(data@, at as int) == digits_end(data@, place as int),
            forall|i: int| at <= i < place ==> digit(#[trigger] data@[i]),
        decreases data.len() - place,
    {
        place += 1;
    }
    place
}

/// The number that the digits from `from` up to `to` write, or `None` where
/// it is beyond [`SIZE_LIMIT`].
fn read_number(data: &[u8], from: usize, to: usize) -> (r: Option<usize>)
    requires
        from <= to <= data.len(),
        forall|i: int| from <= i < to ==> digit(#[trigger] data@[i]),
    ensures
        match r {
            Some(value) => value == number(data@, from as int, to as int) && value <= SIZE_LIMIT,
            None => number(data@, from as int, to as int) > SIZE_LIMIT,
        },
{
    let mut value: u64 = 0;
    let mut beyond = false;
    let mut place: usize = from;
    while place < to
        invariant
            from <= place <= to <= data.len(),
            forall|i: int| from <= i < to ==> digit(#[trigger] data@[i]),
            beyond ==> number(data@, from as int, place as int) > SIZE_LIMIT,
            !beyond ==> value == number(data@, from as int, place as int) && value <= SIZE_LIMIT,
        decreases to - place,
    {
        assert(digit(data@[place as int]));
        let next: u64 = data[place] as u64 - 48;
        if !beyond {
            value = value * 10 + next;
            if value > 0x7fff_ffff {
                beyond = true;
            }
        }
        place += 1;
    }
    if beyond {
        None
    } else {
        Some(value as usize)
    }
}

/// Whether what follows the name `Length` at `at` is no reference.
fn is_length_in_place(data: &[u8], at: usize) -> (r: bool)
    requires
        at <= data.len(),
    ensures
        r == length_in_place(data@, at as int),
{
    let value = find_blank_end(data, at);
    if value >= data.len() {
        true
    } else if data[value] == 37 {
        false
    } else if !is_digit(data[value]) {
        true
    } else {
        let next = find_blank_end(data, find_digits_end(data, value));
        next >= data.len() || (data[next] != 37 && !is_digit(data[next]))
    }
}

/// Whether the offset that follows `startxref` at `at` is beyond the file or
/// the place of a cross-reference table.
fn is_table_marked(data: &[u8], at: usize) -> (r: bool)
    requires
        at <= data.len(),
        data.len() <= SIZE_LIMIT,
    ensures
        r == table_marked(data@, at as int),
{
    let first: usize = if at < data.len() && data.len() - at > 1 && data[at] == 13 && data[at + 1]
        == 10 {
        at + 2
    } else if at < data.len() && (data[at] == 10 || data[at] == 13) {
        at + 1
    } else {
        return true;
    };
    if first >= data.len() {
        return true;
    }
    if data[first] == 43 || data[first] == 45 {
        return false;
    }
    let end = find_digits_end(data, first);
    if end == first {
        return true;
    }
    match read_number(data, first, end) {
        Some(offset) => {
            let word: [u8; 4] = [120, 114, 101, 102];
            assert(word@ =~= table_word());
            offset > data.len() || is_standing(data, offset, word.as_slice())
        },
        None => true,
    }
}

/// Whether a number of a section that starts the line at `at` is within the
/// limit.
fn is_section_small(data: &[u8], at: usize) -> (r: bool)
    requires
        at < data.len(),
    ensures
        r == section_small(data@, at as int),
{
    if at > 0 && data[at - 1] != 10 && data[at - 1] != 13 {
        return true;
    }
    let end = find_digits_end(data, at);
    if end == at || end >= data.len() || data[end] != 32 {
        return true;
    }
    read_number(data, at, end).is_some()
}

/// The scan for nesting as it runs.
pub struct Scan {
    /// The arrays and dictionaries that are open.
    pub depth: usize,
    /// The most that were open at once.
    pub deepest: usize,
    /// The parentheses that are open.
    pub parens: usize,
    /// Whether the last byte was a backslash that escapes the next.
    pub escaped: bool,
    /// Whether the scan is inside a comment.
    pub comment: bool,
}

impl View for Scan {
    type V = Nesting;

    open spec fn view(&self) -> Nesting {
        Nesting {
            depth: self.depth as nat,
            deepest: self.deepest as nat,
            parens: self.parens as nat,
            escaped: self.escaped,
            comment: self.comment,
        }
    }
}

impl Scan {
    /// The scan before its first byte.
    pub fn start() -> (scan: Scan)
        ensures
            scan@ == outside(),
    {
        Scan { depth: 0, deepest: 0, parens: 0, escaped: false, comment: false }
    }

    /// The scan after one more byte.
    pub fn step(self, byte: u8) -> (scan: Scan)
        requires
            self.depth < usize::MAX,
            self.parens < usize::MAX,
        ensures
            scan@ == nesting_step(self@, byte),
    {
        let mut scan = self;
        if scan.comment {
            scan.comment = byte != 13 && byte != 10;
        } else if scan.parens > 0 {
            if scan.escaped {
                scan.escaped = false;
            } else if byte == 92 {
                scan.escaped = true;
            } else if byte == 40 {
                scan.parens = scan.parens + 1;
            } else if byte == 41 {
                scan.parens = scan.parens - 1;
            }
        } else if byte == 40 {
            scan.parens = 1;
        } else if byte == 37 {
            scan.comment = true;
        } else if byte == 91 || byte == 60 {
            scan.depth = scan.depth + 1;
            if scan.depth > scan.deepest {
                scan.deepest = scan.depth;
            }
        } else if (byte == 93 || byte == 62) && scan.depth > 0 {
            scan.depth = scan.depth - 1;
        }
        scan
    }
}

/// Whether the scan for nesting from `at` stays within the limit and, in a
/// trailer, meets no name `Prev`.
fn is_tame(data: &[u8], at: usize, trailer: bool) -> (r: bool)
    requires
        at <= data.len(),
    ensures
        r == tame(data@, at as int, outside(), trailer),
{
    let earlier: [u8; 4] = [80, 114, 101, 118];
    assert(earlier@ =~= earlier_word());
    let mut scan = Scan::start();
    let mut i: usize = at;
    while i < data.len()
        invariant
            at <= i <= data.len(),
            scan.depth <= NESTING_LIMIT,
            scan.parens <= i - at,
            earlier@ == earlier_word(),
            tame(data@, at as int, outside(), trailer) == tame(data@, i as int, scan@, trailer),
        decreases data.len() - i,
    {
        let byte = data[i];
        if scan.depth == 0 && scan.parens == 0 && !scan.comment && !is_blank(byte) && byte != 37
            && byte != 91 && byte != 60 {
            return true;
        }
        if trailer && find_name_end(data, i, earlier.as_slice()).is_some() {
            return false;
        }
        let before = scan.depth;
        scan = scan.step(byte);
        if scan.depth > NESTING_LIMIT {
            return false;
        }
        if scan.depth == 0 && before > 0 {
            return true;
        }
        i += 1;
    }
    true
}

/// Whether what is read from behind `word` at `at` is tame.
fn is_tame_behind(data: &[u8], at: usize, word: &[u8], trailer: bool) -> (r: bool)
    requires
        at < data.len(),
    ensures
        r == tame_behind(data@, at as int, word@, trailer),
{
    !is_standing(data, at, word) || is_tame(data, at + word.len(), trailer)
}

/// Whether a file keeps to the classic form at one place.
fn is_classic_at(data: &[u8], at: usize) -> (r: bool)
    requires
        at < data.len(),
        data.len() <= SIZE_LIMIT,
    ensures
        r == classic_at(data@, at as int),
{
    let packed: [u8; 6] = [79, 98, 106, 83, 116, 109];
    let length: [u8; 6] = [76, 101, 110, 103, 116, 104];
    let start: [u8; 9] = [115, 116, 97, 114, 116, 120, 114, 101, 102];
    let object: [u8; 3] = [111, 98, 106];
    let trailer: [u8; 7] = [116, 114, 97, 105, 108, 101, 114];
    proof {
        assert(packed@ =~= packed_word());
        assert(length@ =~= length_word());
        assert(start@ =~= start_word());
        assert(object@ =~= object_word());
        assert(trailer@ =~= trailer_word());
    }
    if find_name_end(data, at, packed.as_slice()).is_some() {
        return false;
    }
    let in_place = match find_name_end(data, at, length.as_slice()) {
        Some(end) => is_length_in_place(data, end),
        None => true,
    };
    let marked = !is_standing(data, at, start.as_slice()) || is_table_marked(data, at + 9);
    in_place && marked && is_section_small(data, at) && is_tame_behind(
        data,
        at,
        object.as_slice(),
        false,
    ) && is_tame_behind(data, at, trailer.as_slice(), true)
}

/// Whether a file is classic.
pub fn is_classic(data: &[u8]) -> (r: bool)
    ensures
        r == classic(data@),
{
    let head: [u8; 5] = [37, 80, 68, 70, 45];
    assert(head@ =~= head_word());
    if data.len() > SIZE_LIMIT || !is_standing(data, 0, head.as_slice()) {
        return false;
    }
    let mut at: usize = 0;
    while at < data.len()
        invariant
            at <= data.len(),
            data.len() <= SIZE_LIMIT,
            stands(data@, 0, head_word()),
            forall|i: int| 0 <= i < at ==> #[trigger] classic_at(data@, i),
        decreases data.len() - at,
    {
        if !is_classic_at(data, at) {
            return false;
        }
        at += 1;
    }
    true
}

} // verus!
