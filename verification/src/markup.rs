//! Lowering a document to Typst markup.
//!
//! A PDF file is made by a typesetter that takes markup and the images the
//! markup refers to. This module writes the markup: headings, paragraphs,
//! lists, tables, links and images, with every character of the document's
//! text escaped where the typesetter would read it as markup. The images go
//! under the names that [`crate::text::image_files`] gives them. What the
//! typesetter answers is read here as well: its file, or its failure.

use vstd::prelude::*;
use bytes::Bytes;
use crate::buffer::{contents, duplicate, from_vec};
use crate::chars::{
    chars_of,
    decimal,
    extend_chars,
    extend_from,
    push_decimal,
    push_repeated,
    repeated,
    string_of,
};
use crate::model::{
    elements_view,
    items_view,
    rows_view,
    Band,
    Document,
    DocumentView,
    Element,
    ElementView,
    GenerateError,
    ListItem,
    TableRow,
};
use crate::text::{image_name, images_among, images_of, indentation, Rendered};

verus! {

/// Whether the typesetter reads a character as markup where text stands.
pub open spec fn is_markup(c: char) -> bool {
    c == '\\' || c == '#' || c == '$' || c == '*' || c == '_' || c == '`' || c == '<' || c == '>'
        || c == '@' || c == '=' || c == '-' || c == '+' || c == '/' || c == '[' || c == ']' || c
        == '~' || c == '"' || c == '\''
}

/// Whether a character ends or escapes a string.
pub open spec fn is_string_markup(c: char) -> bool {
    c == '\\' || c == '"'
}

/// The first `count` characters of a text with a backslash before each that
/// would be read as markup: in running text, or inside a string.
pub open spec fn escaped(text: Seq<char>, count: nat, in_string: bool) -> Seq<char>
    decreases count,
{
    if count == 0 || count > text.len() {
        Seq::empty()
    } else {
        let before = escaped(text, (count - 1) as nat, in_string);
        let c = text[count - 1];
        if (in_string && is_string_markup(c)) || (!in_string && is_markup(c)) {
            before.push('\\').push(c)
        } else {
            before.push(c)
        }
    }
}

/// A text as running text.
pub open spec fn plain(text: Seq<char>) -> Seq<char> {
    escaped(text, text.len(), false)
}

/// A text as a string.
pub open spec fn quoted(text: Seq<char>) -> Seq<char> {
    "\""@ + escaped(text, text.len(), true) + "\""@
}

/// The number of `=` before a heading: its level, and one at least.
pub open spec fn heading_depth(level: u8) -> nat {
    if level == 0 {
        1
    } else {
        level as nat
    }
}

/// A cell of a table: its text in brackets; empty brackets for a cell that is
/// no text.
pub open spec fn cell_markup(cell: ElementView) -> Seq<char> {
    if cell is Text {
        "  ["@ + plain(cell->Text_text) + "],\n"@
    } else {
        "  [],\n"@
    }
}

/// The first `count` cells of a row.
pub open spec fn cells_markup(cells: Seq<ElementView>, count: nat) -> Seq<char>
    decreases count,
{
    if count == 0 || count > cells.len() {
        Seq::empty()
    } else {
        cells_markup(cells, (count - 1) as nat) + cell_markup(cells[count - 1])
    }
}

/// The first `count` rows of a table, cell by cell.
pub open spec fn rows_markup(rows: Seq<Seq<ElementView>>, count: nat) -> Seq<char>
    decreases count,
{
    if count == 0 || count > rows.len() {
        Seq::empty()
    } else {
        rows_markup(rows, (count - 1) as nat) + cells_markup(
            rows[count - 1],
            rows[count - 1].len(),
        )
    }
}

/// The number of columns of a table: as many as it has headers, and one at
/// least.
pub open spec fn column_count(headers: Seq<ElementView>) -> nat {
    if headers.len() == 0 {
        1
    } else {
        headers.len()
    }
}

/// A table: the number of its columns, then its cells row by row, the
/// headers first.
pub open spec fn table_markup(headers: Seq<ElementView>, rows: Seq<Seq<ElementView>>) -> Seq<char> {
    "#table(\n  columns: "@ + decimal(column_count(headers)) + ",\n"@ + cells_markup(
        headers,
        headers.len(),
    ) + rows_markup(rows, rows.len()) + ")\n\n"@
}

/// What stands before an entry of a list: a plus in a numbered list, which
/// the typesetter counts, else a dash.
pub open spec fn item_marker(numbered: bool) -> Seq<char> {
    if numbered {
        "+ "@
    } else {
        "- "@
    }
}

/// An element as markup. `depth` counts the lists around the element,
/// `number` is the number of the next image.
pub open spec fn lowered(element: ElementView, depth: nat, number: int) -> Rendered
    decreases element, 0nat,
{
    match element {
        ElementView::Text { text, .. } => Rendered { text: plain(text) + "\n"@, next_image: number },
        ElementView::Header { level, text } => Rendered {
            text: repeated('=', heading_depth(level)) + " "@ + plain(text) + "\n\n"@,
            next_image: number,
        },
        ElementView::Paragraph { elements } => {
            let inner = lowered_all(elements, elements.len(), depth, number);
            Rendered { text: inner.text + "\n"@, next_image: inner.next_image }
        },
        ElementView::List { elements, numbered } => {
            let inner = lowered_items(elements, elements.len(), numbered, depth, number);
            Rendered {
                text: if depth == 0 {
                    inner.text + "\n"@
                } else {
                    inner.text
                },
                next_image: inner.next_image,
            }
        },
        ElementView::Table { headers, rows } => Rendered {
            text: table_markup(headers, rows),
            next_image: number,
        },
        ElementView::Hyperlink { title, url, .. } => Rendered {
            text: "#link("@ + quoted(url) + ")["@ + plain(title) + "]\n"@,
            next_image: number,
        },
        ElementView::Image(image) => Rendered {
            text: "#image("@ + quoted(image_name(number)) + ")\n"@,
            next_image: number + 1,
        },
    }
}

/// The first `count` elements as markup, one after the other.
pub open spec fn lowered_all(elements: Seq<ElementView>, count: nat, depth: nat, number: int)
    -> Rendered
    decreases elements, count,
{
    if count == 0 || count > elements.len() {
        Rendered { text: Seq::empty(), next_image: number }
    } else {
        let before = lowered_all(elements, (count - 1) as nat, depth, number);
        let here = lowered(elements[count - 1], depth, before.next_image);
        Rendered { text: before.text + here.text, next_image: here.next_image }
    }
}

/// The first `count` entries of a list as markup: each behind its
/// indentation and its marker, and what it holds one list deeper.
pub open spec fn lowered_items(
    items: Seq<ElementView>,
    count: nat,
    numbered: bool,
    depth: nat,
    number: int,
) -> Rendered
    decreases items, count,
{
    if count == 0 || count > items.len() {
        Rendered { text: Seq::empty(), next_image: number }
    } else {
        let before = lowered_items(items, (count - 1) as nat, numbered, depth, number);
        let here = lowered(items[count - 1], depth + 1, before.next_image);
        Rendered {
            text: before.text + indentation(depth) + item_marker(numbered) + here.text,
            next_image: here.next_image,
        }
    }
}

/// The markup of a document: the page header and footer as settings of the
/// page, then the body. The images are numbered band after band: those of the
/// page header, those of the body, those of the page footer.
pub open spec fn document_markup(document: DocumentView) -> Seq<char> {
    let head = lowered_all(document.page_header, document.page_header.len(), 0, 0);
    let body = lowered_all(document.body, document.body.len(), 0, head.next_image);
    let foot = lowered_all(document.page_footer, document.page_footer.len(), 0, body.next_image);
    "#set page(header: ["@ + head.text + "], footer: ["@ + foot.text + "])\n"@ + body.text
}

/// An element that is lowered takes one number for each of its images, as it
/// does when it is written as text: the markup names the files that
/// [`crate::text::image_files`] lists.
pub proof fn lemma_lowered_images_are_numbered(element: ElementView, depth: nat, number: int)
    ensures
        lowered(element, depth, number).next_image == number + images_of(element).len(),
    decreases element, 0nat,
{
    match element {
        ElementView::Paragraph { elements } => {
            lemma_all_lowered_images_are_numbered(elements, elements.len(), depth, number);
        },
        ElementView::List { elements, numbered } => {
            lemma_lowered_item_images_are_numbered(
                elements,
                elements.len(),
                numbered,
                depth,
                number,
            );
        },
        _ => {},
    }
}

/// Elements that are lowered one after the other take one number for each of
/// their images.
pub proof fn lemma_all_lowered_images_are_numbered(
    elements: Seq<ElementView>,
    count: nat,
    depth: nat,
    number: int,
)
    requires
        count <= elements.len(),
    ensures
        lowered_all(elements, count, depth, number).next_image == number + images_among(
            elements,
            count,
        ).len(),
    decreases elements, count,
{
    if count > 0 {
        lemma_all_lowered_images_are_numbered(elements, (count - 1) as nat, depth, number);
        let before = lowered_all(elements, (count - 1) as nat, depth, number);
        lemma_lowered_images_are_numbered(elements[count - 1], depth, before.next_image);
    }
}

/// The entries of a list that is lowered take one number for each of their
/// images.
pub proof fn lemma_lowered_item_images_are_numbered(
    items: Seq<ElementView>,
    count: nat,
    numbered: bool,
    depth: nat,
    number: int,
)
    requires
        count <= items.len(),
    ensures
        lowered_items(items, count, numbered, depth, number).next_image == number + images_among(
            items,
            count,
        ).len(),
    decreases items, count,
{
    if count > 0 {
        lemma_lowered_item_images_are_numbered(items, (count - 1) as nat, numbered, depth, number);
        let before = lowered_items(items, (count - 1) as nat, numbered, depth, number);
        lemma_lowered_images_are_numbered(items[count - 1], depth + 1, before.next_image);
    }
}

/// Whether the typesetter reads a character as markup where text stands.
fn reads_as_markup(c: char, in_string: bool) -> (r: bool)
    ensures
        r == ((in_string && is_string_markup(c)) || (!in_string && is_markup(c))),
{
    if in_string {
        c == '\\' || c == '"'
    } else {
        c == '\\' || c == '#' || c == '$' || c == '*' || c == '_' || c == '`' || c == '<' || c
            == '>' || c == '@' || c == '=' || c == '-' || c == '+' || c == '/' || c == '[' || c
            == ']' || c == '~' || c == '"' || c == '\''
    }
}

/// Appends a text with its markup characters escaped.
fn push_escaped(out: &mut Vec<char>, text: &str, in_string: bool)
    ensures
        final(out)@ == old(out)@ + escaped(text@, text@.len(), in_string),
{
    let chars = chars_of(text);
    let mut i: usize = 0;
    assert(out@ =~= old(out)@ + escaped(text@, 0, in_string));
    while i < chars.len()
        invariant
            i <= chars.len(),
            chars@ == text@,
            out@ == old(out)@ + escaped(text@, i as nat, in_string),
        decreases chars.len() - i,
    {
        let c = chars[i];
        if reads_as_markup(c, in_string) {
            out.push('\\');
        }
        out.push(c);
        i += 1;
        assert(out@ =~= old(out)@ + escaped(text@, i as nat, in_string));
    }
}

/// Appends a text as a string.
fn push_quoted(out: &mut Vec<char>, text: &str)
    ensures
        final(out)@ == old(out)@ + quoted(text@),
{
    extend_chars(out, "\"");
    push_escaped(out, text, true);
    extend_chars(out, "\"");
    assert(out@ =~= old(out)@ + quoted(text@));
}

/// Writes the cells of one row of a table.
fn push_cells(out: &mut Vec<char>, cells: &Vec<ListItem>)
    ensures
        final(out)@ == old(out)@ + cells_markup(items_view(cells@), cells@.len()),
{
    let ghost row = items_view(cells@);
    let mut j: usize = 0;
    assert(out@ =~= old(out)@ + cells_markup(row, 0));
    while j < cells.len()
        invariant
            j <= cells.len(),
            row == items_view(cells@),
            out@ == old(out)@ + cells_markup(row, j as nat),
        decreases cells.len() - j,
    {
        let ghost before = out@;
        assert(row[j as int] == cells@[j as int].element@);
        match &cells[j].element {
            Element::Text { text, .. } => {
                extend_chars(out, "  [");
                push_escaped(out, text.as_str(), false);
                extend_chars(out, "],\n");
                assert(out@ =~= before + cell_markup(row[j as int]));
            },
            _ => {
                extend_chars(out, "  [],\n");
            },
        }
        j += 1;
        assert(out@ =~= old(out)@ + cells_markup(row, j as nat));
    }
}

/// Writes a table.
fn push_table(out: &mut Vec<char>, headers: &Vec<ListItem>, rows: &Vec<TableRow>)
    ensures
        final(out)@ == old(out)@ + table_markup(items_view(headers@), rows_view(rows@)),
{
    let ghost head = items_view(headers@);
    let ghost body = rows_view(rows@);
    extend_chars(out, "#table(\n  columns: ");
    if headers.len() == 0 {
        push_decimal(out, 1);
    } else {
        push_decimal(out, headers.len() as u64);
    }
    extend_chars(out, ",\n");
    push_cells(out, headers);
    let ghost started = out@;
    let mut r: usize = 0;
    assert(out@ =~= started + rows_markup(body, 0));
    while r < rows.len()
        invariant
            r <= rows.len(),
            body == rows_view(rows@),
            out@ == started + rows_markup(body, r as nat),
        decreases rows.len() - r,
    {
        assert(body[r as int] == items_view(rows@[r as int].cells@));
        push_cells(out, &rows[r].cells);
        r += 1;
        assert(out@ =~= started + rows_markup(body, r as nat));
    }
    extend_chars(out, ")\n\n");
    assert(out@ =~= old(out)@ + table_markup(head, body));
}

/// Writes one element. The images met so far are kept in `images`: their
/// count is the number of the next image.
fn push_element(
    out: &mut Vec<char>,
    element: &Element,
    indent: &Vec<char>,
    Ghost(depth): Ghost<nat>,
    images: &mut Vec<Bytes>,
)
    requires
        indent@ == indentation(depth),
    ensures
        final(out)@ == old(out)@ + lowered(element@, depth, old(images)@.len() as int).text,
        final(images)@.len() == lowered(element@, depth, old(images)@.len() as int).next_image,
    decreases element,
{
    match element {
        Element::Text { text, .. } => {
            push_escaped(out, text.as_str(), false);
            extend_chars(out, "\n");
            assert(out@ =~= old(out)@ + (plain(text@) + "\n"@));
        },
        Element::Header { level, text } => {
            let depth_of_heading: usize = if *level == 0 {
                1
            } else {
                *level as usize
            };
            push_repeated(out, '=', depth_of_heading);
            extend_chars(out, " ");
            push_escaped(out, text.as_str(), false);
            extend_chars(out, "\n\n");
            assert(out@ =~= old(out)@ + (repeated('=', heading_depth(*level)) + " "@ + plain(text@)
                + "\n\n"@));
        },
        Element::Paragraph { elements } => {
            assert(decreases_to!(*element => *elements));
            push_elements(out, elements, indent, Ghost(depth), images);
            let ghost inner = lowered_all(
                elements_view(elements@),
                elements@.len(),
                depth,
                old(images)@.len() as int,
            );
            extend_chars(out, "\n");
            assert(out@ =~= old(out)@ + (inner.text + "\n"@));
        },
        Element::List { elements, numbered } => {
            assert(decreases_to!(*element => *elements));
            push_items(out, elements, *numbered, indent, Ghost(depth), images);
            let ghost inner = lowered_items(
                items_view(elements@),
                elements@.len(),
                *numbered,
                depth,
                old(images)@.len() as int,
            );
            if indent.len() == 0 {
                extend_chars(out, "\n");
                assert(out@ =~= old(out)@ + (inner.text + "\n"@));
            }
        },
        Element::Table { headers, rows } => {
            push_table(out, headers, rows);
        },
        Element::Hyperlink { title, url, .. } => {
            extend_chars(out, "#link(");
            push_quoted(out, url.as_str());
            extend_chars(out, ")[");
            push_escaped(out, title.as_str(), false);
            extend_chars(out, "]\n");
            assert(out@ =~= old(out)@ + ("#link("@ + quoted(url@) + ")["@ + plain(title@)
                + "]\n"@));
        },
        Element::Image(image) => {
            let mut name: Vec<char> = Vec::new();
            extend_chars(&mut name, "image");
            push_decimal(&mut name, images.len() as u64);
            extend_chars(&mut name, ".png");
            assert(name@ =~= image_name(images@.len() as int));
            let name = string_of(name.as_slice());
            extend_chars(out, "#image(");
            push_quoted(out, name.as_str());
            extend_chars(out, ")\n");
            assert(out@ =~= old(out)@ + ("#image("@ + quoted(image_name(old(images)@.len() as int))
                + ")\n"@));
            images.push(duplicate(image.bytes()));
        },
    }
}

/// Writes elements one after the other.
fn push_elements(
    out: &mut Vec<char>,
    elements: &Vec<Element>,
    indent: &Vec<char>,
    Ghost(depth): Ghost<nat>,
    images: &mut Vec<Bytes>,
)
    requires
        indent@ == indentation(depth),
    ensures
        final(out)@ == old(out)@ + lowered_all(
            elements_view(elements@),
            elements@.len(),
            depth,
            old(images)@.len() as int,
        ).text,
        final(images)@.len() == lowered_all(
            elements_view(elements@),
            elements@.len(),
            depth,
            old(images)@.len() as int,
        ).next_image,
    decreases elements,
{
    let ghost all = elements_view(elements@);
    let ghost first = images@.len() as int;
    let mut i: usize = 0;
    assert(out@ =~= old(out)@ + Seq::<char>::empty());
    while i < elements.len()
        invariant
            i <= elements.len(),
            indent@ == indentation(depth),
            all == elements_view(elements@),
            first == old(images)@.len(),
            out@ == old(out)@ + lowered_all(all, i as nat, depth, first).text,
            images@.len() == lowered_all(all, i as nat, depth, first).next_image,
        decreases elements.len() - i,
    {
        let ghost done = lowered_all(all, i as nat, depth, first);
        proof {
            assert(decreases_to!(*elements => elements[i as int]));
            assert(all[i as int] == elements@[i as int]@);
        }
        push_element(out, &elements[i], indent, Ghost(depth), images);
        proof {
            let here = lowered(all[i as int], depth, done.next_image);
            assert(out@ =~= old(out)@ + (done.text + here.text));
        }
        i += 1;
    }
}

/// Writes the entries of a list.
fn push_items(
    out: &mut Vec<char>,
    items: &Vec<ListItem>,
    numbered: bool,
    indent: &Vec<char>,
    Ghost(depth): Ghost<nat>,
    images: &mut Vec<Bytes>,
)
    requires
        indent@ == indentation(depth),
    ensures
        final(out)@ == old(out)@ + lowered_items(
            items_view(items@),
            items@.len(),
            numbered,
            depth,
            old(images)@.len() as int,
        ).text,
        final(images)@.len() == lowered_items(
            items_view(items@),
            items@.len(),
            numbered,
            depth,
            old(images)@.len() as int,
        ).next_image,
    decreases items,
{
    let ghost all = items_view(items@);
    let ghost first = images@.len() as int;
    let mut deeper: Vec<char> = Vec::new();
    extend_from(&mut deeper, indent);
    deeper.push(' ');
    deeper.push(' ');
    assert(deeper@ =~= indentation(depth + 1));
    let mut i: usize = 0;
    assert(out@ =~= old(out)@ + Seq::<char>::empty());
    while i < items.len()
        invariant
            i <= items.len(),
            indent@ == indentation(depth),
            deeper@ == indentation(depth + 1),
            all == items_view(items@),
            first == old(images)@.len(),
            out@ == old(out)@ + lowered_items(all, i as nat, numbered, depth, first).text,
            images@.len() == lowered_items(all, i as nat, numbered, depth, first).next_image,
        decreases items.len() - i,
    {
        let ghost done = lowered_items(all, i as nat, numbered, depth, first);
        let item = &items[i];
        proof {
            assert(decreases_to!(*items => items[i as int]));
            assert(decreases_to!(items[i as int] => items[i as int].element));
            assert(all[i as int] == item.element@);
        }
        extend_from(out, indent);
        if numbered {
            extend_chars(out, "+ ");
        } else {
            extend_chars(out, "- ");
        }
        push_element(out, &item.element, &deeper, Ghost(depth + 1), images);
        proof {
            let here = lowered(all[i as int], depth + 1, done.next_image);
            assert(out@ =~= old(out)@ + (done.text + indentation(depth) + item_marker(numbered)
                + here.text));
        }
        i += 1;
    }
}

/// What the typesetter has made of markup: a file, or nothing but faults.
#[derive(Debug, PartialEq)]
pub enum Typeset {
    /// The bytes of the file.
    File(Vec<u8>),
    /// The typesetter has given up.
    Failed,
}

/// The file that the typesetter's answer stands for.
pub open spec fn typeset_file(answer: Typeset) -> Result<Seq<u8>, GenerateError> {
    match answer {
        Typeset::File(data) => Ok(data@),
        Typeset::Failed => Err(GenerateError::Backend),
    }
}

/// Lowers a document to the markup that the typesetter is given. The images
/// that the markup refers to are those of
/// [`crate::text::Transformer::image_files`].
pub fn lower(document: &Document) -> (markup: String)
    ensures
        markup@ == document_markup(document@),
{
    let mut images: Vec<Bytes> = Vec::new();
    let indent: Vec<char> = Vec::new();
    assert(indent@ =~= indentation(0));
    let mut head: Vec<char> = Vec::new();
    push_elements(
        &mut head,
        document.get_elements_by_band(Band::PageHeader),
        &indent,
        Ghost(0),
        &mut images,
    );
    let mut body: Vec<char> = Vec::new();
    push_elements(
        &mut body,
        document.get_elements_by_band(Band::Body),
        &indent,
        Ghost(0),
        &mut images,
    );
    let mut foot: Vec<char> = Vec::new();
    push_elements(
        &mut foot,
        document.get_elements_by_band(Band::PageFooter),
        &indent,
        Ghost(0),
        &mut images,
    );
    let mut out: Vec<char> = Vec::new();
    extend_chars(&mut out, "#set page(header: [");
    extend_from(&mut out, &head);
    extend_chars(&mut out, "], footer: [");
    extend_from(&mut out, &foot);
    extend_chars(&mut out, "])\n");
    extend_from(&mut out, &body);
    assert(out@ =~= document_markup(document@));
    string_of(out.as_slice())
}

/// Reads the typesetter's answer: its file is the PDF file of the document;
/// without a file the document could not be written.
pub fn finish(answer: Typeset) -> (r: Result<Bytes, GenerateError>)
    ensures
        match typeset_file(answer) {
            Ok(data) => r matches Ok(b) && contents(b) == data,
            Err(e) => r matches Err(x) && x == e,
        },
{
    match answer {
        Typeset::File(data) => Ok(from_vec(data)),
        Typeset::Failed => Err(GenerateError::Backend),
    }
}

} // verus!
