//! Reading PDF files with `lopdf`.
//!
//! The verifier does not look inside a loaded file, a dictionary or an
//! object. Each function here makes one call into `lopdf` and says what is
//! taken on trust of it. What a dictionary and an object hold is named by
//! [`dictionary_view`] and [`object_view`]. A loaded file is known by the
//! bytes it was read from, [`source`]; what `lopdf` finds in such bytes, its
//! pages, their resources, fonts and content, and the objects behind
//! references, is named too, since it depends on the bytes alone. So does what
//! a content stream decodes to and the text of a string under a declared
//! encoding.
//!
//! Some calls do not come to an end on every input: they follow the file's
//! own offsets, go up a chain of parents, down into nested arrays, or make
//! room for a row as long as the file says. Each of them has a `requires`
//! that leaves those inputs out, and the callers test for it before they
//! call.

use vstd::prelude::*;
use vstd::utf8::{decode_utf8, encode_utf8, valid_utf8};
use crate::buffer::contents;
use crate::classic::classic;
use crate::content::{operations_view, Operand, Operation, OperationView};

verus! {

/// A PDF file that `lopdf` has read.
#[verifier::external_body]
pub struct PdfFile {
    document: lopdf::Document,
}

#[verifier::external_type_specification]
#[verifier::external_body]
pub struct ExDictionary(lopdf::Dictionary);

#[verifier::external_type_specification]
#[verifier::external_body]
pub struct ExObject(lopdf::Object);

#[verifier::external_type_specification]
#[verifier::external_body]
pub struct ExError(lopdf::Error);

/// An entry of a dictionary.
pub ghost struct EntryView {
    pub key: Seq<u8>,
    pub value: ObjectView,
}

/// What an object holds. Of a real number only that it is one.
pub ghost enum ObjectView {
    Null,
    Boolean(bool),
    Integer(i64),
    Real,
    Name(Seq<u8>),
    Text(Seq<u8>),
    Array(Seq<ObjectView>),
    Dictionary(Seq<EntryView>),
    Stream { dictionary: Seq<EntryView>, content: Seq<u8> },
    Reference((u32, u16)),
}

/// A font among a page's resources: the name under which the page lists it,
/// and its dictionary.
pub ghost struct FontView {
    pub name: Seq<u8>,
    pub dictionary: Seq<EntryView>,
}

/// What an object holds.
pub uninterp spec fn object_view(object: lopdf::Object) -> ObjectView;

/// The entries of a dictionary, in the order in which the file lists them. No
/// key occurs twice.
pub uninterp spec fn dictionary_view(dictionary: lopdf::Dictionary) -> Seq<EntryView>;

/// The bytes that a loaded file was read from.
pub uninterp spec fn source(file: PdfFile) -> Seq<u8>;

/// Whether `lopdf` can read the bytes as a file.
pub uninterp spec fn readable(data: Seq<u8>) -> bool;

/// The identifiers of the pages that `lopdf` finds in a file, in the order of
/// the page tree.
pub uninterp spec fn pages_of(data: Seq<u8>) -> Seq<(u32, u16)>;

/// The resource dictionary that a page of a file has of its own, if any.
pub uninterp spec fn resources_of(data: Seq<u8>, page: (u32, u16)) -> Option<Seq<EntryView>>;

/// The fonts that `lopdf` finds for a page of a file: those of its own
/// resources and those it inherits.
pub uninterp spec fn fonts_of(data: Seq<u8>, page: (u32, u16)) -> Seq<FontView>;

/// The bytes of the content streams of a page of a file, one after the other
/// and with their filters undone, or `None` where `lopdf` cannot give them.
pub uninterp spec fn content_of(data: Seq<u8>, page: (u32, u16)) -> Option<Seq<u8>>;

/// The object that an identifier stands for in a file, references followed,
/// or `None` where there is none.
pub uninterp spec fn object_of(data: Seq<u8>, id: (u32, u16)) -> Option<ObjectView>;

/// The operations that `lopdf` reads from the bytes of a content stream, or
/// `None` where it reads none.
pub uninterp spec fn decoded_content(data: Seq<u8>) -> Option<Seq<OperationView>>;

/// The text that `lopdf` reads from the bytes of a string under a declared
/// encoding, or under none.
pub uninterp spec fn standard_text(encoding: Option<Seq<char>>, data: Seq<u8>) -> Seq<char>;

/// The characters of an encoding's name, where one is declared.
pub open spec fn encoding_view(encoding: Option<&str>) -> Option<Seq<char>> {
    match encoding {
        Some(name) => Some(name@),
        None => None,
    }
}

/// The value under a key among the entries of a dictionary.
pub open spec fn lookup(entries: Seq<EntryView>, key: Seq<u8>) -> Option<ObjectView>
    decreases entries.len(),
{
    if entries.len() == 0 {
        None
    } else if entries[0].key == key {
        Some(entries[0].value)
    } else {
        lookup(entries.skip(1), key)
    }
}

/// The name of the encoding that a font declares: what stands under
/// `Encoding`, if that is a name in UTF-8; else the standard encoding.
pub open spec fn declared_encoding(font: Seq<EntryView>) -> Seq<char> {
    match lookup(font, encode_utf8("Encoding"@)) {
        Some(ObjectView::Name(name)) => if valid_utf8(name) {
            decode_utf8(name)
        } else {
            "StandardEncoding"@
        },
        _ => "StandardEncoding"@,
    }
}

/// The number of ancestors that a page may have.
pub const PARENT_LIMIT: usize = 256;

/// The number of arrays and dictionaries that may be open at once in a
/// content stream.
pub const NESTING_LIMIT: usize = 64;

/// Whether the chain of parents that starts at a node of the page tree ends
/// within `fuel` steps. A parent is the dictionary that the entry `Parent`
/// refers to.
pub open spec fn parents_end(data: Seq<u8>, node: Seq<EntryView>, fuel: nat) -> bool
    decreases fuel,
{
    match lookup(node, encode_utf8("Parent"@)) {
        Some(ObjectView::Reference(id)) => match object_of(data, id) {
            Some(ObjectView::Dictionary(parent)) => fuel > 0 && parents_end(
                data,
                parent,
                (fuel - 1) as nat,
            ),
            _ => true,
        },
        _ => true,
    }
}

/// Whether a page of a file has no more ancestors than [`PARENT_LIMIT`]. A
/// page tree in which a node is its own ancestor has no such pages.
pub open spec fn page_settled(data: Seq<u8>, page: (u32, u16)) -> bool {
    match object_of(data, page) {
        Some(ObjectView::Dictionary(node)) => parents_end(data, node, PARENT_LIMIT as nat),
        _ => true,
    }
}

/// The identifiers of the content streams that `lopdf` finds for a page of a
/// file.
pub uninterp spec fn content_ids_of(data: Seq<u8>, page: (u32, u16)) -> Seq<(u32, u16)>;

/// The widest row, in pixels, that a predictor may be asked to undo.
pub const COLUMNS_LIMIT: i64 = 65536;

/// The most colours in a pixel that a predictor may be asked to undo.
pub const COLORS_LIMIT: i64 = 32;

/// The most bits in a colour that a predictor may be asked to undo.
pub const BITS_LIMIT: i64 = 64;

/// The whole number under a key among the entries of a dictionary, or the
/// given one where there is none.
pub open spec fn integer_at(entries: Seq<EntryView>, key: Seq<u8>, otherwise: i64) -> i64 {
    match lookup(entries, key) {
        Some(ObjectView::Integer(number)) => number,
        _ => otherwise,
    }
}

/// Whether undoing the filters of a stream stays within bounds. A stream may
/// ask for a predictor to be undone row by row; the row is as long as the
/// stream's parameters say, and room for it is made before a byte is read.
pub open spec fn stream_tame(dictionary: Seq<EntryView>) -> bool {
    match lookup(dictionary, encode_utf8("DecodeParms"@)) {
        Some(ObjectView::Dictionary(parameters)) => {
            let predictor = integer_at(parameters, encode_utf8("Predictor"@), 1);
            10 <= predictor <= 15 ==> integer_at(parameters, encode_utf8("Columns"@), 1)
                <= COLUMNS_LIMIT && integer_at(parameters, encode_utf8("Colors"@), 1)
                <= COLORS_LIMIT && integer_at(parameters, encode_utf8("BitsPerComponent"@), 8)
                <= BITS_LIMIT
        },
        _ => true,
    }
}

/// Whether the stream behind an identifier, if there is one, is tame.
pub open spec fn content_stream_tame(data: Seq<u8>, id: (u32, u16)) -> bool {
    match object_of(data, id) {
        Some(ObjectView::Stream { dictionary, content }) => stream_tame(dictionary),
        _ => true,
    }
}

/// Whether the first `count` content streams of a page are tame.
pub open spec fn content_tame(data: Seq<u8>, page: (u32, u16), count: nat) -> bool {
    forall|i: int|
        0 <= i < count && i < content_ids_of(data, page).len() ==> content_stream_tame(
            data,
            #[trigger] content_ids_of(data, page)[i],
        )
}

/// What a scan of a content stream for nesting holds after some bytes.
pub ghost struct Nesting {
    /// The arrays and dictionaries that are open; a dictionary counts twice.
    pub depth: nat,
    /// The most that were open at once.
    pub deepest: nat,
    /// The parentheses that are open: above zero inside a string.
    pub parens: nat,
    /// Whether the last byte was a backslash that escapes the next.
    pub escaped: bool,
    /// Whether the scan is inside a comment.
    pub comment: bool,
}

/// The scan after one more byte. A comment runs from `%` to the end of the
/// line. A string runs from `(` to the `)` that closes it; parentheses nest
/// in it, and a backslash takes the next byte along. Elsewhere `[` and `<`
/// open and `]` and `>` close.
pub open spec fn nesting_step(before: Nesting, byte: u8) -> Nesting {
    if before.comment {
        Nesting { comment: byte != 13 && byte != 10, ..before }
    } else if before.parens > 0 {
        if before.escaped {
            Nesting { escaped: false, ..before }
        } else if byte == 92 {
            Nesting { escaped: true, ..before }
        } else if byte == 40 {
            Nesting { parens: before.parens + 1, ..before }
        } else if byte == 41 {
            Nesting { parens: (before.parens - 1) as nat, ..before }
        } else {
            before
        }
    } else if byte == 40 {
        Nesting { parens: 1, ..before }
    } else if byte == 37 {
        Nesting { comment: true, ..before }
    } else if byte == 91 || byte == 60 {
        Nesting {
            depth: before.depth + 1,
            deepest: if before.depth + 1 > before.deepest {
                before.depth + 1
            } else {
                before.deepest
            },
            ..before
        }
    } else if (byte == 93 || byte == 62) && before.depth > 0 {
        Nesting { depth: (before.depth - 1) as nat, ..before }
    } else {
        before
    }
}

/// The scan after the first `count` bytes.
pub open spec fn nesting(data: Seq<u8>, count: nat) -> Nesting
    decreases count,
{
    if count == 0 || count > data.len() {
        Nesting { depth: 0, deepest: 0, parens: 0, escaped: false, comment: false }
    } else {
        nesting_step(nesting(data, (count - 1) as nat), data[count - 1])
    }
}

/// Whether a content stream never has more arrays and dictionaries open than
/// [`NESTING_LIMIT`].
pub open spec fn shallow(data: Seq<u8>) -> bool {
    nesting(data, data.len()).deepest <= NESTING_LIMIT
}

/// `Document::load_mem`: reads a whole file from memory. Whether that
/// succeeds depends on the bytes alone. The call is made only on a classic
/// file, on which the reader comes to an end:
/// - it reads one cross-reference section, since it goes on to an earlier one
///   only by the name `Prev` in a trailer, and no trailer holds that name;
/// - that section is a table, since the offset behind `startxref` is the place
///   of the word `xref`, and no stream is unpacked for it;
/// - the numbers of the table stay within `u32`, since each section starts
///   its line with a number within the limit and the file has no more bytes
///   than that;
/// - it unpacks no object stream, since no object has the type `ObjStm`;
/// - it reads no object to learn the length of another, since no `Length` is
///   a reference;
/// - it reads each object from behind `obj`, and the trailer from behind
///   `trailer`, and is never deeper in arrays and dictionaries than the scan
///   from there.
#[verifier::external_body]
pub(crate) fn load(document: &bytes::Bytes) -> (r: Result<PdfFile, lopdf::Error>)
    requires
        classic(contents(*document)),
    ensures
        match r {
            Ok(file) => readable(contents(*document)) && source(file) == contents(*document),
            Err(_) => !readable(contents(*document)),
        },
{
    match lopdf::Document::load_mem(document.as_ref()) {
        Ok(document) => Ok(PdfFile { document }),
        Err(e) => Err(e),
    }
}

/// `Document::get_pages`: the identifiers of the pages, in the order of the
/// page tree.
#[verifier::external_body]
pub(crate) fn page_ids(file: &PdfFile) -> (ids: Vec<(u32, u16)>)
    ensures
        ids@ == pages_of(source(*file)),
{
    file.document.get_pages().into_values().collect()
}

/// `Document::get_page_resources`: the page's own resource dictionary, if it
/// has one. The call goes up the chain of the page's parents to its end, so
/// it is made only on a page whose chain ends.
#[verifier::external_body]
pub(crate) fn page_resources(file: &PdfFile, page: (u32, u16)) -> (r: Option<&lopdf::Dictionary>)
    requires
        page_settled(source(*file), page),
    ensures
        match r {
            Some(resources) => resources_of(source(*file), page) == Some(
                dictionary_view(*resources),
            ),
            None => resources_of(source(*file), page) is None,
        },
{
    file.document.get_page_resources(page).0
}

/// `Document::get_page_fonts`: the fonts of a page, each under its resource
/// name. The call goes up the chain of the page's parents to its end, so it
/// is made only on a page whose chain ends.
#[verifier::external_body]
pub(crate) fn page_fonts(file: &PdfFile, page: (u32, u16)) -> (fonts: Vec<
    (Vec<u8>, &lopdf::Dictionary),
>)
    requires
        page_settled(source(*file), page),
    ensures
        fonts@.len() == fonts_of(source(*file), page).len(),
        forall|i: int|
            0 <= i < fonts@.len() ==> (#[trigger] fonts@[i]).0@ == fonts_of(
                source(*file),
                page,
            )[i].name && dictionary_view(*fonts@[i].1) == fonts_of(source(*file), page)[i].dictionary,
{
    file.document.get_page_fonts(page).into_iter().collect()
}

/// `Document::get_page_contents`: the identifiers of a page's content streams.
#[verifier::external_body]
pub(crate) fn page_content_ids(file: &PdfFile, page: (u32, u16)) -> (ids: Vec<(u32, u16)>)
    ensures
        ids@ == content_ids_of(source(*file), page),
{
    file.document.get_page_contents(page)
}

/// `Object::as_i64`: the object as a whole number, if it is one.
#[verifier::external_body]
pub(crate) fn as_integer(object: &lopdf::Object) -> (r: Option<i64>)
    ensures
        r == match object_view(*object) {
            ObjectView::Integer(number) => Some(number),
            _ => None,
        },
{
    object.as_i64().ok()
}

/// `Document::get_page_content`: the bytes of a page's content streams, one
/// after the other. The call undoes the filters of each stream, so it is made
/// only where every stream is tame.
#[verifier::external_body]
pub(crate) fn page_content(file: &PdfFile, page: (u32, u16)) -> (r: Result<Vec<u8>, lopdf::Error>)
    requires
        content_tame(source(*file), page, content_ids_of(source(*file), page).len()),
    ensures
        match r {
            Ok(data) => content_of(source(*file), page) == Some(data@),
            Err(_) => content_of(source(*file), page) is None,
        },
{
    file.document.get_page_content(page)
}

/// `Document::get_object`: the object with the given identifier, references
/// followed.
#[verifier::external_body]
pub(crate) fn object(file: &PdfFile, id: (u32, u16)) -> (r: Option<&lopdf::Object>)
    ensures
        match r {
            Some(found) => object_of(source(*file), id) == Some(object_view(*found)),
            None => object_of(source(*file), id) is None,
        },
{
    file.document.get_object(id).ok()
}

/// `Dictionary::get`: the entry under a key, if there is one.
#[verifier::external_body]
pub(crate) fn entry<'a>(dictionary: &'a lopdf::Dictionary, key: &str) -> (r: Option<
    &'a lopdf::Object,
>)
    ensures
        match r {
            Some(found) => lookup(dictionary_view(*dictionary), encode_utf8(key@)) == Some(
                object_view(*found),
            ),
            None => lookup(dictionary_view(*dictionary), encode_utf8(key@)) is None,
        },
{
    dictionary.get(key.as_bytes()).ok()
}

/// `Dictionary::iter`: the entries in the order in which the file lists them.
#[verifier::external_body]
pub(crate) fn entries(dictionary: &lopdf::Dictionary) -> (r: Vec<(Vec<u8>, &lopdf::Object)>)
    ensures
        r@.len() == dictionary_view(*dictionary).len(),
        forall|i: int|
            0 <= i < r@.len() ==> (#[trigger] r@[i]).0@ == dictionary_view(*dictionary)[i].key
                && object_view(*r@[i].1) == dictionary_view(*dictionary)[i].value,
{
    dictionary.iter().map(|(key, value)| (key.clone(), value)).collect()
}

/// `Dictionary::get_font_encoding`: the name of the encoding that a font
/// declares, or of the standard encoding where it declares none.
#[verifier::external_body]
pub(crate) fn font_encoding_name(font: &lopdf::Dictionary) -> (name: String)
    ensures
        name@ == declared_encoding(dictionary_view(*font)),
{
    font.get_font_encoding().to_string()
}

/// `Object::as_dict`: the object as a dictionary, if it is one.
#[verifier::external_body]
pub(crate) fn as_dictionary(object: &lopdf::Object) -> (r: Option<&lopdf::Dictionary>)
    ensures
        match object_view(*object) {
            ObjectView::Dictionary(held) => r matches Some(dictionary) && dictionary_view(
                *dictionary,
            ) == held,
            _ => r is None,
        },
{
    object.as_dict().ok()
}

/// `Object::as_reference`: the identifier that the object refers to, if it is
/// a reference.
#[verifier::external_body]
pub(crate) fn as_reference(object: &lopdf::Object) -> (r: Option<(u32, u16)>)
    ensures
        r == match object_view(*object) {
            ObjectView::Reference(id) => Some(id),
            _ => None,
        },
{
    object.as_reference().ok()
}

/// `Object::as_stream`: the dictionary and the bytes of the object, if it is
/// a stream. The bytes are those that the file holds, filters not undone.
#[verifier::external_body]
pub(crate) fn stream_parts(object: &lopdf::Object) -> (r: Option<(&lopdf::Dictionary, Vec<u8>)>)
    ensures
        match object_view(*object) {
            ObjectView::Stream { dictionary, content } => r matches Some(parts) && dictionary_view(
                *parts.0,
            ) == dictionary && parts.1@ == content,
            _ => r is None,
        },
{
    match object.as_stream() {
        Ok(stream) => Some((&stream.dict, stream.content.clone())),
        Err(_) => None,
    }
}

/// `Object::as_name_str`: the object as a name in UTF-8, if it is one.
#[verifier::external_body]
pub(crate) fn as_name_text(object: &lopdf::Object) -> (r: Option<String>)
    ensures
        match object_view(*object) {
            ObjectView::Name(name) => if valid_utf8(name) {
                r matches Some(text) && text@ == decode_utf8(name)
            } else {
                r is None
            },
            _ => r is None,
        },
{
    match object.as_name_str() {
        Ok(name) => Some(name.to_string()),
        Err(_) => None,
    }
}

/// An operand as the library holds it: strings, arrays, integers and names
/// with what they hold, every other kind of object as `Other`.
#[verifier::external_body]
fn operand_of(object: &lopdf::Object) -> (r: Operand) {
    match object {
        lopdf::Object::String(data, _) => Operand::Text(data.clone()),
        lopdf::Object::Array(items) => Operand::Array(items.iter().map(operand_of).collect()),
        lopdf::Object::Integer(number) => Operand::Integer(*number),
        lopdf::Object::Name(name) => Operand::Name(name.clone()),
        _ => Operand::Other,
    }
}

/// `Content::decode`: the operations of a content stream in their order, each
/// with its operator and its operands. The result depends on the bytes alone.
/// The parser calls itself once for each array and dictionary that is open,
/// without a bound, so the call is made only on shallow content. The scan
/// behind [`shallow`] takes strings and comments as the parser does, and
/// counts an opening wherever the parser can see one: the parser is never
/// deeper than the scan.
#[verifier::external_body]
pub(crate) fn operations(data: &[u8]) -> (r: Result<Vec<Operation>, lopdf::Error>)
    requires
        shallow(data@),
    ensures
        match r {
            Ok(list) => decoded_content(data@) == Some(operations_view(list@)),
            Err(_) => decoded_content(data@) is None,
        },
{
    let content = lopdf::content::Content::decode(data)?;
    Ok(
        content.operations.iter().map(
            |operation| Operation {
                operator: operation.operator.clone(),
                operands: operation.operands.iter().map(operand_of).collect(),
            },
        ).collect(),
    )
}

/// `Document::decode_text`: the text of a string under the declared encoding.
/// The result depends on the encoding's name and the bytes alone.
#[verifier::external_body]
pub(crate) fn standard_decode(encoding: Option<&str>, data: &[u8]) -> (text: String)
    ensures
        text@ == standard_text(encoding_view(encoding), data@),
{
    lopdf::Document::decode_text(encoding, data)
}

} // verus!
