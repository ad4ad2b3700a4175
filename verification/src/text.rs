//! Plain text.
//!
//! Reading takes the text line by line into one paragraph. Writing lays a
//! document out as lines: headers and paragraphs closed by an empty line,
//! lists with a marker or a number before each entry, tables with columns as
//! wide as their longest text, images and links in the notation of Markdown.

use vstd::prelude::*;
use vstd::utf8::{decode_utf8, encode_utf8, valid_utf8};
use bytes::Bytes;
use crate::buffer::{as_slice, contents, duplicate, from_vec};
use crate::chars::{
    chars_of,
    decimal,
    extend_chars,
    extend_from,
    push_decimal,
    push_repeated,
    repeated,
    string_from_utf8,
    string_of,
};
use crate::model::{
    elements_view,
    items_view,
    rows_view,
    Band,
    Document,
    DocumentView,
    Element,
    ElementView,
    GenerateError,
    ListItem,
    ParserError,
    TableRow,
    text_element,
    TEXT_SIZE,
};

verus! {

/// The transformer for plain text.
pub struct Transformer;

/// What a scan for line breaks holds after some characters: the lines that
/// are closed, and the line that is open.
pub ghost struct Scan {
    pub closed: Seq<Seq<char>>,
    pub open: Seq<char>,
}

/// A line without the carriage return that stood before its line feed.
pub open spec fn without_return(line: Seq<char>) -> Seq<char> {
    if line.len() > 0 && line.last() == '\r' {
        line.drop_last()
    } else {
        line
    }
}

/// The scan after the first `count` characters: a line feed closes the open
/// line, any other character is added to it.
pub open spec fn scanned(text: Seq<char>, count: nat) -> Scan
    decreases count,
{
    if count == 0 || count > text.len() {
        Scan { closed: Seq::empty(), open: Seq::empty() }
    } else {
        let before = scanned(text, (count - 1) as nat);
        if text[count - 1] == '\n' {
            Scan { closed: before.closed.push(without_return(before.open)), open: Seq::empty() }
        } else {
            Scan { closed: before.closed, open: before.open.push(text[count - 1]) }
        }
    }
}

/// The lines of a text. A line ends with a line feed, or with a carriage
/// return and a line feed; neither belongs to the line. What follows the last
/// line feed is a line if it is not empty.
pub open spec fn lines_of(text: Seq<char>) -> Seq<Seq<char>> {
    let scan = scanned(text, text.len());
    if scan.open.len() > 0 {
        scan.closed.push(scan.open)
    } else {
        scan.closed
    }
}

/// The elements that lines are read into: each line, and a line feed behind
/// each.
pub open spec fn line_elements(lines: Seq<Seq<char>>) -> Seq<ElementView> {
    Seq::new(
        2 * lines.len(),
        |i: int|
            if i % 2 == 0 {
                text_element(lines[i / 2])
            } else {
                text_element(seq!['\n'])
            },
    )
}

/// The document that plain text is read into: one paragraph that holds the
/// lines. Bytes that are not UTF-8 are no text.
pub open spec fn parsed(data: Seq<u8>) -> Result<DocumentView, ParserError> {
    if valid_utf8(data) {
        Ok(
            DocumentView {
                page_header: Seq::empty(),
                body: seq![
                    ElementView::Paragraph { elements: line_elements(lines_of(decode_utf8(data))) },
                ],
                page_footer: Seq::empty(),
            },
        )
    } else {
        Err(ParserError::InvalidUtf8)
    }
}

/// The number of bytes that a text takes in UTF-8. Columns are measured by it.
pub open spec fn byte_len(text: Seq<char>) -> nat {
    encode_utf8(text).len()
}

/// A text with a blank at its end, added where there was none.
pub open spec fn spaced(text: Seq<char>) -> Seq<char> {
    if text.len() > 0 && text.last() == ' ' {
        text
    } else {
        text.push(' ')
    }
}

/// A link: the address alone where it is its own description, else title,
/// address and description.
pub open spec fn link_text(title: Seq<char>, url: Seq<char>, alt: Seq<char>) -> Seq<char> {
    if url == alt {
        url
    } else {
        "["@ + title + "]("@ + url + " \""@ + alt + "\")"@
    }
}

/// The file name under which the image with a given number is referred to.
pub open spec fn image_name(number: int) -> Seq<char> {
    "image"@ + decimal(number as nat) + ".png"@
}

/// An image: its description, the name of its file and its title.
pub open spec fn image_text(alt: Seq<char>, title: Seq<char>, number: int) -> Seq<char> {
    "!["@ + alt + "]("@ + image_name(number) + " \""@ + title + "\")"@
}

/// The blanks before an entry of a list that lies `depth` lists deep.
pub open spec fn indentation(depth: nat) -> Seq<char> {
    repeated(' ', 2 * depth)
}

/// What stands before the text of an entry: its number, or a dash.
pub open spec fn item_prefix(numbered: bool, counter: nat) -> Seq<char> {
    if numbered {
        decimal(counter) + ". "@
    } else {
        "- "@
    }
}

/// The number of headers at the start of a table's header row that are text.
/// These are the columns that the table is laid out in.
pub open spec fn text_columns(headers: Seq<ElementView>) -> nat
    decreases headers.len(),
{
    if headers.len() == 0 || !(headers[0] is Text) {
        0
    } else {
        1 + text_columns(headers.skip(1))
    }
}

/// Whether a table can be laid out: no text header stands behind a header
/// that is no text, and every text cell stands in a column with a text header.
pub open spec fn table_fits(headers: Seq<ElementView>, rows: Seq<Seq<ElementView>>) -> bool {
    &&& forall|i: int| text_columns(headers) <= i < headers.len() ==> !(#[trigger] headers[i] is Text)
    &&& forall|r: int, j: int|
        0 <= r < rows.len() && 0 <= j < rows[r].len() && (#[trigger] rows[r][j]) is Text ==> j
            < text_columns(headers)
}

/// The width that a cell asks of its column: the length of its text.
pub open spec fn cell_len(cell: ElementView) -> nat {
    if cell is Text {
        byte_len(cell->Text_text)
    } else {
        0
    }
}

/// The width that a row asks of column `j`.
pub open spec fn row_len(cells: Seq<ElementView>, j: int) -> nat {
    if 0 <= j < cells.len() {
        cell_len(cells[j])
    } else {
        0
    }
}

/// The width of column `j` over the header and the first `count` rows: the
/// length of the longest text among them.
pub open spec fn column_width(
    headers: Seq<ElementView>,
    rows: Seq<Seq<ElementView>>,
    j: int,
    count: nat,
) -> nat
    decreases count,
{
    if count == 0 || count > rows.len() {
        row_len(headers, j)
    } else {
        let before = column_width(headers, rows, j, (count - 1) as nat);
        let here = row_len(rows[count - 1], j);
        if here > before {
            here
        } else {
            before
        }
    }
}

/// The widths of a table's columns.
pub open spec fn column_widths(headers: Seq<ElementView>, rows: Seq<Seq<ElementView>>) -> Seq<nat> {
    Seq::new(text_columns(headers), |j: int| column_width(headers, rows, j, rows.len()))
}

/// A cell in a column of the given width: its text between bars, filled up
/// with blanks. A cell that is no text leaves nothing.
pub open spec fn cell_text(cell: ElementView, width: nat) -> Seq<char> {
    if cell is Text {
        "| "@ + cell->Text_text + repeated(' ', (width - cell_len(cell)) as nat) + " "@
    } else {
        Seq::empty()
    }
}

/// The width of column `j`, or zero where the table has no such column.
pub open spec fn width_at(widths: Seq<nat>, j: int) -> nat {
    if 0 <= j < widths.len() {
        widths[j]
    } else {
        0
    }
}

/// The first `count` cells of a row.
pub open spec fn cells_text(cells: Seq<ElementView>, widths: Seq<nat>, count: nat) -> Seq<char>
    decreases count,
{
    if count == 0 || count > cells.len() {
        Seq::empty()
    } else {
        cells_text(cells, widths, (count - 1) as nat) + cell_text(
            cells[count - 1],
            width_at(widths, count - 1),
        )
    }
}

/// A row of a table as a line.
pub open spec fn row_line(cells: Seq<ElementView>, widths: Seq<nat>) -> Seq<char> {
    cells_text(cells, widths, cells.len()) + "|\n"@
}

/// The rule under the header row, over the first `count` columns: for each
/// column a bar and dashes, two more than the column is wide.
pub open spec fn rule_text(widths: Seq<nat>, count: nat) -> Seq<char>
    decreases count,
{
    if count == 0 || count > widths.len() {
        Seq::empty()
    } else {
        rule_text(widths, (count - 1) as nat) + "|"@ + repeated('-', widths[count - 1] + 2)
    }
}

/// The rule under the header row as a line.
pub open spec fn rule_line(widths: Seq<nat>) -> Seq<char> {
    rule_text(widths, widths.len()) + "|\n"@
}

/// The first `count` rows of a table as lines.
pub open spec fn rows_text(rows: Seq<Seq<ElementView>>, widths: Seq<nat>, count: nat) -> Seq<char>
    decreases count,
{
    if count == 0 || count > rows.len() {
        Seq::empty()
    } else {
        rows_text(rows, widths, (count - 1) as nat) + row_line(rows[count - 1], widths)
    }
}

/// A table: the header row, the rule, the rows, and an empty line.
pub open spec fn table_text(headers: Seq<ElementView>, rows: Seq<Seq<ElementView>>) -> Seq<char> {
    let widths = column_widths(headers, rows);
    row_line(headers, widths) + rule_line(widths) + rows_text(rows, widths, rows.len()) + "\n"@
}

/// What has been written of a document, and the number of the next image.
pub ghost struct Rendered {
    pub text: Seq<char>,
    pub next_image: int,
}

/// What has been written of a list, the number of the next image, and the
/// number of the last numbered entry.
pub ghost struct RenderedItems {
    pub text: Seq<char>,
    pub next_image: int,
    pub counter: nat,
}

/// An element as text. `depth` counts the lists around the element, `number`
/// is the number of the next image.
pub open spec fn render(element: ElementView, depth: nat, number: int) -> Result<
    Rendered,
    GenerateError,
>
    decreases element, 0nat,
{
    match element {
        ElementView::Text { text, .. } => Ok(Rendered { text: spaced(text), next_image: number }),
        ElementView::Header { text, .. } => Ok(
            Rendered { text: text + "\n\n"@, next_image: number },
        ),
        ElementView::Paragraph { elements } => match render_all(
            elements,
            elements.len(),
            depth,
            number,
        ) {
            Ok(inner) => Ok(Rendered { text: inner.text + "\n\n"@, next_image: inner.next_image }),
            Err(e) => Err(e),
        },
        ElementView::List { elements, numbered } => match render_items(
            elements,
            elements.len(),
            numbered,
            depth,
            number,
        ) {
            Ok(inner) => Ok(
                Rendered {
                    text: if depth == 0 {
                        inner.text + "\n"@
                    } else {
                        inner.text
                    },
                    next_image: inner.next_image,
                },
            ),
            Err(e) => Err(e),
        },
        ElementView::Table { headers, rows } => if table_fits(headers, rows) {
            Ok(Rendered { text: table_text(headers, rows), next_image: number })
        } else {
            Err(GenerateError::Table)
        },
        ElementView::Hyperlink { title, url, alt, .. } => Ok(
            Rendered { text: link_text(title, url, alt), next_image: number },
        ),
        ElementView::Image(image) => Ok(
            Rendered { text: image_text(image.alt, image.title, number), next_image: number + 1 },
        ),
    }
}

/// The first `count` elements as text, one after the other.
pub open spec fn render_all(elements: Seq<ElementView>, count: nat, depth: nat, number: int)
    -> Result<Rendered, GenerateError>
    decreases elements, count,
{
    if count == 0 || count > elements.len() {
        Ok(Rendered { text: Seq::empty(), next_image: number })
    } else {
        match render_all(elements, (count - 1) as nat, depth, number) {
            Ok(before) => match render(elements[count - 1], depth, before.next_image) {
                Ok(here) => Ok(
                    Rendered { text: before.text + here.text, next_image: here.next_image },
                ),
                Err(e) => Err(e),
            },
            Err(e) => Err(e),
        }
    }
}

/// An entry of a list as text. An entry that is text stands on a line of its
/// own behind its number or a dash; in a numbered list it counts. Any other
/// entry is written as it is, one list deeper, behind the indentation.
pub open spec fn render_item(
    item: ElementView,
    numbered: bool,
    counter: nat,
    depth: nat,
    number: int,
) -> Result<RenderedItems, GenerateError>
    decreases item, 1nat,
{
    let counted = if numbered && item is Text {
        counter + 1
    } else {
        counter
    };
    match render(item, depth + 1, number) {
        Ok(inner) => Ok(
            RenderedItems {
                text: if item is Text {
                    indentation(depth) + item_prefix(numbered, counted) + inner.text + "\n"@
                } else {
                    indentation(depth) + inner.text
                },
                next_image: inner.next_image,
                counter: counted,
            },
        ),
        Err(e) => Err(e),
    }
}

/// The first `count` entries of a list as text.
pub open spec fn render_items(
    items: Seq<ElementView>,
    count: nat,
    numbered: bool,
    depth: nat,
    number: int,
) -> Result<RenderedItems, GenerateError>
    decreases items, count,
{
    if count == 0 || count > items.len() {
        Ok(RenderedItems { text: Seq::empty(), next_image: number, counter: 0 })
    } else {
        match render_items(items, (count - 1) as nat, numbered, depth, number) {
            Ok(before) => match render_item(
                items[count - 1],
                numbered,
                before.counter,
                depth,
                before.next_image,
            ) {
                Ok(here) => Ok(
                    RenderedItems {
                        text: before.text + here.text,
                        next_image: here.next_image,
                        counter: here.counter,
                    },
                ),
                Err(e) => Err(e),
            },
            Err(e) => Err(e),
        }
    }
}

/// A document as text: page header, body and page footer, one after the
/// other, with the images numbered through.
pub open spec fn rendered(document: DocumentView) -> Result<Seq<char>, GenerateError> {
    match render_all(document.page_header, document.page_header.len(), 0, 0) {
        Ok(head) => match render_all(document.body, document.body.len(), 0, head.next_image) {
            Ok(body) => match render_all(
                document.page_footer,
                document.page_footer.len(),
                0,
                body.next_image,
            ) {
                Ok(foot) => Ok(head.text + body.text + foot.text),
                Err(e) => Err(e),
            },
            Err(e) => Err(e),
        },
        Err(e) => Err(e),
    }
}

/// The bytes of the images in an element, in the order in which they are
/// written. Images in the cells of a table are not written.
pub open spec fn images_of(element: ElementView) -> Seq<Seq<u8>>
    decreases element, 0nat,
{
    match element {
        ElementView::Paragraph { elements } => images_among(elements, elements.len()),
        ElementView::List { elements, .. } => images_among(elements, elements.len()),
        ElementView::Image(image) => seq![image.bytes],
        _ => Seq::empty(),
    }
}

/// The bytes of the images in the first `count` elements.
pub open spec fn images_among(elements: Seq<ElementView>, count: nat) -> Seq<Seq<u8>>
    decreases elements, count,
{
    if count == 0 || count > elements.len() {
        Seq::empty()
    } else {
        images_among(elements, (count - 1) as nat) + images_of(elements[count - 1])
    }
}

/// The bytes of the images in a document, band after band.
pub open spec fn images_in(document: DocumentView) -> Seq<Seq<u8>> {
    images_among(document.page_header, document.page_header.len()) + images_among(
        document.body,
        document.body.len(),
    ) + images_among(document.page_footer, document.page_footer.len())
}

/// The files that the text of a document refers to: each image under the name
/// that the text gives it.
pub open spec fn image_files(document: DocumentView) -> Seq<(Seq<char>, Seq<u8>)> {
    Seq::new(images_in(document).len(), |k: int| (image_name(k), images_in(document)[k]))
}

/// An element that is written takes one number for each of its images, so
/// that the names in the text and the names of the files agree.
pub proof fn lemma_images_are_numbered(element: ElementView, depth: nat, number: int)
    requires
        render(element, depth, number) is Ok,
    ensures
        render(element, depth, number)->Ok_0.next_image == number + images_of(element).len(),
    decreases element, 0nat,
{
    match element {
        ElementView::Paragraph { elements } => {
            lemma_all_images_are_numbered(elements, elements.len(), depth, number);
        },
        ElementView::List { elements, numbered } => {
            lemma_item_images_are_numbered(elements, elements.len(), numbered, depth, number);
        },
        _ => {},
    }
}

/// Elements that are written one after the other take one number for each of
/// their images.
pub proof fn lemma_all_images_are_numbered(
    elements: Seq<ElementView>,
    count: nat,
    depth: nat,
    number: int,
)
    requires
        count <= elements.len(),
        render_all(elements, count, depth, number) is Ok,
    ensures
        render_all(elements, count, depth, number)->Ok_0.next_image == number + images_among(
            elements,
            count,
        ).len(),
    decreases elements, count,
{
    if count > 0 {
        lemma_all_images_are_numbered(elements, (count - 1) as nat, depth, number);
        let before = render_all(elements, (count - 1) as nat, depth, number)->Ok_0;
        lemma_images_are_numbered(elements[count - 1], depth, before.next_image);
    }
}

/// The entries of a list that is written take one number for each of their
/// images.
pub proof fn lemma_item_images_are_numbered(
    items: Seq<ElementView>,
    count: nat,
    numbered: bool,
    depth: nat,
    number: int,
)
    requires
        count <= items.len(),
        render_items(items, count, numbered, depth, number) is Ok,
    ensures
        render_items(items, count, numbered, depth, number)->Ok_0.next_image == number
            + images_among(items, count).len(),
    decreases items, count,
{
    if count > 0 {
        lemma_item_images_are_numbered(items, (count - 1) as nat, numbered, depth, number);
        let before = render_items(items, (count - 1) as nat, numbered, depth, number)->Ok_0;
        let here = render_item(
            items[count - 1],
            numbered,
            before.counter,
            depth,
            before.next_image,
        );
        assert(here is Ok);
        assert(render(items[count - 1], depth + 1, before.next_image) is Ok);
        lemma_images_are_numbered(items[count - 1], depth + 1, before.next_image);
    }
}

/// What is written can be read: the text of a document is well-formed UTF-8,
/// and reading it gives one paragraph that holds the written text line by
/// line.
pub proof fn lemma_written_text_is_read_back(document: DocumentView)
    requires
        rendered(document) is Ok,
    ensures
        generated(document) matches Ok(data) && parsed(data) == Ok::<DocumentView, ParserError>(
            DocumentView {
                page_header: Seq::empty(),
                body: seq![
                    ElementView::Paragraph {
                        elements: line_elements(lines_of(rendered(document)->Ok_0)),
                    },
                ],
                page_footer: Seq::empty(),
            },
        ),
{
    let text = rendered(document)->Ok_0;
    vstd::utf8::encode_utf8_valid_utf8(text);
    vstd::utf8::encode_utf8_decode_utf8(text);
}

/// A document as the bytes of its text.
pub open spec fn generated(document: DocumentView) -> Result<Seq<u8>, GenerateError> {
    match rendered(document) {
        Ok(text) => Ok(encode_utf8(text)),
        Err(e) => Err(e),
    }
}

/// The width that a cell asks of its column.
fn cell_len_of(cell: &ListItem) -> (n: usize)
    ensures
        n == cell_len(cell@),
{
    match &cell.element {
        Element::Text { text, .. } => text.as_str().as_bytes().len(),
        _ => 0,
    }
}

/// Whether an element is text.
fn is_text(element: &Element) -> (r: bool)
    ensures
        r == (element@ is Text),
{
    match element {
        Element::Text { .. } => true,
        _ => false,
    }
}

/// Counts the headers at the start of a header row that are text.
fn count_text_columns(headers: &Vec<ListItem>) -> (t: usize)
    ensures
        t == text_columns(items_view(headers@)),
        t <= headers.len(),
        forall|i: int| 0 <= i < t ==> (#[trigger] items_view(headers@)[i]) is Text,
{
    let ghost all = items_view(headers@);
    let mut t: usize = 0;
    assert(all.skip(0) =~= all);
    while t < headers.len() && is_text(&headers[t].element)
        invariant
            t <= headers.len(),
            all == items_view(headers@),
            text_columns(all) == t + text_columns(all.skip(t as int)),
            forall|i: int| 0 <= i < t ==> (#[trigger] all[i]) is Text,
        decreases headers.len() - t,
    {
        assert(all.skip(t as int)[0] == all[t as int]);
        assert(all.skip(t as int).skip(1) =~= all.skip(t + 1));
        t += 1;
    }
    proof {
        if t < headers.len() {
            assert(all.skip(t as int)[0] == all[t as int]);
        }
    }
    t
}

/// Whether a table can be laid out in its first `t` columns.
fn fits(headers: &Vec<ListItem>, rows: &Vec<TableRow>, t: usize) -> (r: bool)
    requires
        t == text_columns(items_view(headers@)),
        t <= headers.len(),
    ensures
        r == table_fits(items_view(headers@), rows_view(rows@)),
{
    let mut i: usize = t;
    while i < headers.len()
        invariant
            t <= i <= headers.len(),
            t == text_columns(items_view(headers@)),
            forall|k: int| t <= k < i ==> !(#[trigger] items_view(headers@)[k] is Text),
        decreases headers.len() - i,
    {
        if is_text(&headers[i].element) {
            assert(items_view(headers@)[i as int] is Text);
            return false;
        }
        i += 1;
    }
    let mut r: usize = 0;
    while r < rows.len()
        invariant
            r <= rows.len(),
            t == text_columns(items_view(headers@)),
            forall|k: int| t <= k < headers.len() ==> !(#[trigger] items_view(headers@)[k] is Text),
            forall|a: int, b: int|
                0 <= a < r && 0 <= b < rows_view(rows@)[a].len() && (#[trigger] rows_view(
                    rows@,
                )[a][b]) is Text ==> b < t,
        decreases rows.len() - r,
    {
        let cells = &rows[r].cells;
        assert(rows_view(rows@)[r as int] == items_view(cells@));
        let mut j: usize = t;
        while j < cells.len()
            invariant
                t <= j,
                rows_view(rows@)[r as int] == items_view(cells@),
                r < rows.len(),
                t == text_columns(items_view(headers@)),
                forall|b: int| t <= b < j && b < cells.len() ==> !(#[trigger] items_view(
                    cells@,
                )[b] is Text),
            decreases cells.len() - j,
        {
            if is_text(&cells[j].element) {
                assert(rows_view(rows@)[r as int][j as int] is Text);
                return false;
            }
            j += 1;
        }
        r += 1;
    }
    true
}

/// The width of a column as a number of the machine.
pub open spec fn widths_view(widths: Seq<usize>) -> Seq<nat> {
    Seq::new(widths.len(), |j: int| widths[j] as nat)
}

/// A column is as wide as the longest text in it: no narrower than its header
/// and than any row asks.
pub proof fn lemma_column_width_covers(
    headers: Seq<ElementView>,
    rows: Seq<Seq<ElementView>>,
    j: int,
    count: nat,
    r: int,
)
    requires
        count <= rows.len(),
    ensures
        row_len(headers, j) <= column_width(headers, rows, j, count),
        0 <= r < count ==> row_len(rows[r], j) <= column_width(headers, rows, j, count),
    decreases count,
{
    if count > 0 {
        lemma_column_width_covers(headers, rows, j, (count - 1) as nat, r);
    }
}

/// A column is exactly as wide as one of its texts: the width is the length
/// of the header's text or of the text of some row.
pub proof fn lemma_column_width_attained(
    headers: Seq<ElementView>,
    rows: Seq<Seq<ElementView>>,
    j: int,
    count: nat,
)
    requires
        count <= rows.len(),
    ensures
        column_width(headers, rows, j, count) == row_len(headers, j) || exists|r: int|
            0 <= r < count && column_width(headers, rows, j, count) == row_len(#[trigger] rows[r], j),
    decreases count,
{
    if count > 0 {
        lemma_column_width_attained(headers, rows, j, (count - 1) as nat);
        let before = column_width(headers, rows, j, (count - 1) as nat);
        if row_len(rows[count - 1], j) > before {
            assert(column_width(headers, rows, j, count) == row_len(rows[count - 1], j));
        } else if before != row_len(headers, j) {
            let r = choose|r: int| 0 <= r < count - 1 && before == row_len(#[trigger] rows[r], j);
            assert(column_width(headers, rows, j, count) == row_len(rows[r], j));
        }
    }
}

/// The bytes of two texts, one after the other, are the bytes of the one and
/// the bytes of the other.
pub proof fn lemma_byte_len_of_both(a: Seq<char>, b: Seq<char>)
    ensures
        byte_len(a + b) == byte_len(a) + byte_len(b),
    decreases a.len(),
{
    if a.len() == 0 {
        assert(a + b =~= b);
    } else {
        assert((a + b).drop_first() =~= a.drop_first() + b);
        assert((a + b)[0] == a[0]);
        lemma_byte_len_of_both(a.drop_first(), b);
    }
}

/// A run of one character below U+0080 takes one byte for each.
pub proof fn lemma_byte_len_of_repeated(c: char, n: nat)
    requires
        (c as u32) < 0x80,
    ensures
        byte_len(repeated(c, n)) == n,
    decreases n,
{
    if n > 0 {
        assert(repeated(c, n).drop_first() =~= repeated(c, (n - 1) as nat));
        assert(repeated(c, n)[0] == c);
        lemma_byte_len_of_repeated(c, (n - 1) as nat);
    }
}

/// Every cell of a column is written equally wide: the bytes of its text and
/// of what fills it up are as many as the column is wide, and three more for
/// the bar and the blanks around the text.
pub proof fn lemma_cell_fills_its_column(cell: ElementView, width: nat)
    requires
        cell is Text,
        cell_len(cell) <= width,
    ensures
        byte_len(cell_text(cell, width)) == width + 3,
{
    let text = cell->Text_text;
    let fill = repeated(' ', (width - cell_len(cell)) as nat);
    reveal_strlit("| ");
    reveal_strlit(" ");
    assert("| "@ =~= repeated('|', 1) + repeated(' ', 1));
    assert(" "@ =~= repeated(' ', 1));
    lemma_byte_len_of_repeated('|', 1);
    lemma_byte_len_of_repeated(' ', 1);
    lemma_byte_len_of_both(repeated('|', 1), repeated(' ', 1));
    lemma_byte_len_of_repeated(' ', (width - cell_len(cell)) as nat);
    lemma_byte_len_of_both("| "@, text);
    lemma_byte_len_of_both("| "@ + text, fill);
    lemma_byte_len_of_both("| "@ + text + fill, " "@);
}

/// The rule under a column is as wide as its cells: a bar and dashes, two
/// more than the column is wide.
pub proof fn lemma_rule_fills_its_column(width: nat)
    ensures
        byte_len("|"@ + repeated('-', width + 2)) == width + 3,
{
    reveal_strlit("|");
    assert("|"@ =~= repeated('|', 1));
    lemma_byte_len_of_repeated('|', 1);
    lemma_byte_len_of_repeated('-', width + 2);
    lemma_byte_len_of_both("|"@, repeated('-', width + 2));
}

/// The width of one column.
fn width_of(headers: &Vec<ListItem>, rows: &Vec<TableRow>, j: usize) -> (w: usize)
    requires
        j < headers.len(),
    ensures
        w == column_width(items_view(headers@), rows_view(rows@), j as int, rows@.len()),
{
    let mut w: usize = cell_len_of(&headers[j]);
    let mut r: usize = 0;
    while r < rows.len()
        invariant
            r <= rows.len(),
            j < headers.len(),
            w == column_width(items_view(headers@), rows_view(rows@), j as int, r as nat),
        decreases rows.len() - r,
    {
        let cells = &rows[r].cells;
        assert(rows_view(rows@)[r as int] == items_view(cells@));
        if j < cells.len() {
            let here = cell_len_of(&cells[j]);
            if here > w {
                w = here;
            }
        }
        r += 1;
    }
    w
}

/// Writes one cell of a table.
fn push_cell(out: &mut Vec<char>, cell: &ListItem, width: usize)
    requires
        cell_len(cell@) <= width,
    ensures
        final(out)@ == old(out)@ + cell_text(cell@, width as nat),
{
    match &cell.element {
        Element::Text { text, .. } => {
            let fill = width - text.as_str().as_bytes().len();
            extend_chars(out, "| ");
            extend_chars(out, text.as_str());
            push_repeated(out, ' ', fill);
            extend_chars(out, " ");
            assert(out@ =~= old(out)@ + cell_text(cell@, width as nat));
        },
        _ => {
            assert(out@ =~= old(out)@ + cell_text(cell@, width as nat));
        },
    }
}

/// Writes one row of a table.
fn push_row(out: &mut Vec<char>, cells: &Vec<ListItem>, widths: &Vec<usize>)
    requires
        forall|j: int|
            0 <= j < cells.len() ==> cell_len(#[trigger] items_view(cells@)[j]) <= width_at(
                widths_view(widths@),
                j,
            ),
    ensures
        final(out)@ == old(out)@ + row_line(items_view(cells@), widths_view(widths@)),
{
    let ghost row = items_view(cells@);
    let ghost columns = widths_view(widths@);
    let mut j: usize = 0;
    assert(out@ =~= old(out)@ + cells_text(row, columns, 0));
    while j < cells.len()
        invariant
            j <= cells.len(),
            row == items_view(cells@),
            columns == widths_view(widths@),
            forall|k: int|
                0 <= k < cells.len() ==> cell_len(#[trigger] row[k]) <= width_at(columns, k),
            out@ == old(out)@ + cells_text(row, columns, j as nat),
        decreases cells.len() - j,
    {
        let width: usize = if j < widths.len() {
            widths[j]
        } else {
            0
        };
        assert(width == width_at(columns, j as int));
        assert(row[j as int] == cells@[j as int]@);
        let ghost before = out@;
        push_cell(out, &cells[j], width);
        j += 1;
        assert(out@ =~= old(out)@ + cells_text(row, columns, j as nat));
    }
    extend_chars(out, "|\n");
    assert(out@ =~= old(out)@ + row_line(row, columns));
}

/// Writes the rule under the header row.
fn push_rule(out: &mut Vec<char>, widths: &Vec<usize>)
    ensures
        final(out)@ == old(out)@ + rule_line(widths_view(widths@)),
{
    let ghost columns = widths_view(widths@);
    let mut j: usize = 0;
    assert(out@ =~= old(out)@ + rule_text(columns, 0));
    while j < widths.len()
        invariant
            j <= widths.len(),
            columns == widths_view(widths@),
            out@ == old(out)@ + rule_text(columns, j as nat),
        decreases widths.len() - j,
    {
        let ghost before = out@;
        extend_chars(out, "|");
        push_repeated(out, '-', widths[j]);
        out.push('-');
        out.push('-');
        j += 1;
        proof {
            let w = widths@[j - 1] as nat;
            assert(repeated('-', w).push('-').push('-') =~= repeated('-', w + 2));
            assert(out@ =~= before + "|"@ + repeated('-', w + 2));
            assert(out@ =~= old(out)@ + rule_text(columns, j as nat));
        }
    }
    extend_chars(out, "|\n");
    assert(out@ =~= old(out)@ + rule_line(columns));
}

/// Writes a table, if it can be laid out.
fn push_table(out: &mut Vec<char>, headers: &Vec<ListItem>, rows: &Vec<TableRow>) -> (r: Result<
    (),
    GenerateError,
>)
    ensures
        table_fits(items_view(headers@), rows_view(rows@)) ==> r is Ok && final(out)@ == old(out)@
            + table_text(items_view(headers@), rows_view(rows@)),
        !table_fits(items_view(headers@), rows_view(rows@)) ==> r == Err::<(), GenerateError>(
            GenerateError::Table,
        ),
{
    let ghost head = items_view(headers@);
    let ghost body = rows_view(rows@);
    let t = count_text_columns(headers);
    if !fits(headers, rows, t) {
        return Err(GenerateError::Table);
    }
    let mut widths: Vec<usize> = Vec::new();
    let mut j: usize = 0;
    while j < t
        invariant
            j <= t <= headers.len(),
            head == items_view(headers@),
            body == rows_view(rows@),
            widths.len() == j,
            forall|k: int|
                0 <= k < j ==> (#[trigger] widths@[k]) == column_width(head, body, k, body.len()),
        decreases t - j,
    {
        widths.push(width_of(headers, rows, j));
        j += 1;
    }
    let ghost columns = column_widths(head, body);
    assert(widths_view(widths@) =~= columns);
    proof {
        assert forall|k: int| 0 <= k < headers.len() implies cell_len(#[trigger] head[k])
            <= width_at(columns, k) by {
            if k < t {
                lemma_column_width_covers(head, body, k, body.len(), 0);
            }
        }
    }
    push_row(out, headers, &widths);
    push_rule(out, &widths);
    let ghost started = out@;
    let mut r: usize = 0;
    assert(out@ =~= started + rows_text(body, columns, 0));
    while r < rows.len()
        invariant
            r <= rows.len(),
            head == items_view(headers@),
            body == rows_view(rows@),
            columns == column_widths(head, body),
            widths_view(widths@) == columns,
            t == text_columns(head),
            table_fits(head, body),
            out@ == started + rows_text(body, columns, r as nat),
        decreases rows.len() - r,
    {
        let cells = &rows[r].cells;
        assert(body[r as int] == items_view(cells@));
        proof {
            assert forall|k: int| 0 <= k < cells.len() implies cell_len(
                #[trigger] items_view(cells@)[k],
            ) <= width_at(columns, k) by {
                if items_view(cells@)[k] is Text {
                    assert(body[r as int][k] is Text);
                    lemma_column_width_covers(head, body, k, body.len(), r as int);
                }
            }
        }
        push_row(out, cells, &widths);
        r += 1;
        assert(out@ =~= started + rows_text(body, columns, r as nat));
    }
    extend_chars(out, "\n");
    assert(out@ =~= old(out)@ + table_text(head, body));
    Ok(())
}

/// Once an element has failed, the sequence has failed, whatever follows.
proof fn lemma_render_all_fails(
    elements: Seq<ElementView>,
    at: nat,
    count: nat,
    depth: nat,
    number: int,
)
    requires
        at <= count <= elements.len(),
        render_all(elements, at, depth, number) is Err,
    ensures
        render_all(elements, count, depth, number) == render_all(elements, at, depth, number),
    decreases count,
{
    if at < count {
        lemma_render_all_fails(elements, at, (count - 1) as nat, depth, number);
    }
}

/// Once an entry has failed, the list has failed, whatever follows.
proof fn lemma_render_items_fail(
    items: Seq<ElementView>,
    at: nat,
    count: nat,
    numbered: bool,
    depth: nat,
    number: int,
)
    requires
        at <= count <= items.len(),
        render_items(items, at, numbered, depth, number) is Err,
    ensures
        render_items(items, count, numbered, depth, number) == render_items(
            items,
            at,
            numbered,
            depth,
            number,
        ),
    decreases count,
{
    if at < count {
        lemma_render_items_fail(items, at, (count - 1) as nat, numbered, depth, number);
    }
}

/// Writes one element.
fn push_element(
    out: &mut Vec<char>,
    element: &Element,
    indent: &Vec<char>,
    Ghost(depth): Ghost<nat>,
    images: &mut Vec<Bytes>,
) -> (r: Result<(), GenerateError>)
    requires
        indent@ == indentation(depth),
    ensures
        match render(element@, depth, old(images)@.len() as int) {
            Ok(rendered) => r is Ok && final(out)@ == old(out)@ + rendered.text && final(images)@.len()
                == rendered.next_image,
            Err(e) => r == Err::<(), GenerateError>(e),
        },
    decreases element,
{
    match element {
        Element::Text { text, .. } => {
            let chars = chars_of(text.as_str());
            extend_chars(out, text.as_str());
            if !(chars.len() > 0 && chars[chars.len() - 1] == ' ') {
                out.push(' ');
            }
            assert(out@ =~= old(out)@ + spaced(text@));
            Ok(())
        },
        Element::Header { text, .. } => {
            extend_chars(out, text.as_str());
            extend_chars(out, "\n\n");
            assert(out@ =~= old(out)@ + (text@ + "\n\n"@));
            Ok(())
        },
        Element::Paragraph { elements } => {
            assert(decreases_to!(*element => *elements));
            match push_elements(out, elements, indent, Ghost(depth), images) {
                Ok(()) => {},
                Err(e) => {
                    return Err(e);
                },
            }
            let ghost inner = render_all(
                elements_view(elements@),
                elements@.len(),
                depth,
                old(images)@.len() as int,
            )->Ok_0;
            extend_chars(out, "\n\n");
            assert(out@ =~= old(out)@ + (inner.text + "\n\n"@));
            Ok(())
        },
        Element::List { elements, numbered } => {
            assert(decreases_to!(*element => *elements));
            match push_items(out, elements, *numbered, indent, Ghost(depth), images) {
                Ok(()) => {},
                Err(e) => {
                    return Err(e);
                },
            }
            let ghost inner = render_items(
                items_view(elements@),
                elements@.len(),
                *numbered,
                depth,
                old(images)@.len() as int,
            )->Ok_0;
            if indent.len() == 0 {
                extend_chars(out, "\n");
                assert(out@ =~= old(out)@ + (inner.text + "\n"@));
            }
            Ok(())
        },
        Element::Table { headers, rows } => push_table(out, headers, rows),
        Element::Hyperlink { title, url, alt, .. } => {
            if crate::chars::same_text(url.as_str(), alt.as_str()) {
                extend_chars(out, url.as_str());
            } else {
                extend_chars(out, "[");
                extend_chars(out, title.as_str());
                extend_chars(out, "](");
                extend_chars(out, url.as_str());
                extend_chars(out, " \"");
                extend_chars(out, alt.as_str());
                extend_chars(out, "\")");
                assert(out@ =~= old(out)@ + link_text(title@, url@, alt@));
            }
            Ok(())
        },
        Element::Image(image) => {
            extend_chars(out, "![");
            extend_chars(out, image.alt());
            extend_chars(out, "](");
            extend_chars(out, "image");
            push_decimal(out, images.len() as u64);
            extend_chars(out, ".png");
            extend_chars(out, " \"");
            extend_chars(out, image.title());
            extend_chars(out, "\")");
            assert(out@ =~= old(out)@ + image_text(
                image@.alt,
                image@.title,
                old(images)@.len() as int,
            ));
            images.push(duplicate(image.bytes()));
            Ok(())
        },
    }
}

/// Writes elements one after the other.
fn push_elements(
    out: &mut Vec<char>,
    elements: &Vec<Element>,
    indent: &Vec<char>,
    Ghost(depth): Ghost<nat>,
    images: &mut Vec<Bytes>,
) -> (r: Result<(), GenerateError>)
    requires
        indent@ == indentation(depth),
    ensures
        match render_all(elements_view(elements@), elements@.len(), depth, old(images)@.len() as int) {
            Ok(rendered) => r is Ok && final(out)@ == old(out)@ + rendered.text && final(images)@.len()
                == rendered.next_image,
            Err(e) => r == Err::<(), GenerateError>(e),
        },
    decreases elements,
{
    let ghost all = elements_view(elements@);
    let ghost first = images@.len() as int;
    let mut i: usize = 0;
    assert(out@ =~= old(out)@ + Seq::<char>::empty());
    while i < elements.len()
        invariant
            i <= elements.len(),
            indent@ == indentation(depth),
            all == elements_view(elements@),
            first == old(images)@.len(),
            render_all(all, i as nat, depth, first) matches Ok(done) && out@ == old(out)@
                + done.text && images@.len() == done.next_image,
        decreases elements.len() - i,
    {
        let ghost done = render_all(all, i as nat, depth, first)->Ok_0;
        proof {
            assert(decreases_to!(*elements => elements[i as int]));
            assert(all[i as int] == elements@[i as int]@);
        }
        match push_element(out, &elements[i], indent, Ghost(depth), images) {
            Ok(()) => {},
            Err(e) => {
                proof {
                    lemma_render_all_fails(all, (i + 1) as nat, all.len(), depth, first);
                }
                return Err(e);
            },
        }
        proof {
            let here = render(all[i as int], depth, done.next_image)->Ok_0;
            assert(out@ =~= old(out)@ + (done.text + here.text));
        }
        i += 1;
    }
    Ok(())
}

/// Writes the entries of a list.
fn push_items(
    out: &mut Vec<char>,
    items: &Vec<ListItem>,
    numbered: bool,
    indent: &Vec<char>,
    Ghost(depth): Ghost<nat>,
    images: &mut Vec<Bytes>,
) -> (r: Result<(), GenerateError>)
    requires
        indent@ == indentation(depth),
    ensures
        match render_items(
            items_view(items@),
            items@.len(),
            numbered,
            depth,
            old(images)@.len() as int,
        ) {
            Ok(rendered) => r is Ok && final(out)@ == old(out)@ + rendered.text && final(images)@.len()
                == rendered.next_image,
            Err(e) => r == Err::<(), GenerateError>(e),
        },
    decreases items,
{
    let ghost all = items_view(items@);
    let ghost first = images@.len() as int;
    let mut deeper: Vec<char> = Vec::new();
    extend_from(&mut deeper, indent);
    deeper.push(' ');
    deeper.push(' ');
    assert(deeper@ =~= indentation(depth + 1));
    let mut counter: usize = 0;
    let mut i: usize = 0;
    assert(out@ =~= old(out)@ + Seq::<char>::empty());
    while i < items.len()
        invariant
            i <= items.len(),
            counter <= i,
            indent@ == indentation(depth),
            deeper@ == indentation(depth + 1),
            all == items_view(items@),
            first == old(images)@.len(),
            render_items(all, i as nat, numbered, depth, first) matches Ok(done) && out@ == old(
                out,
            )@ + done.text && images@.len() == done.next_image && counter == done.counter,
        decreases items.len() - i,
    {
        let ghost done = render_items(all, i as nat, numbered, depth, first)->Ok_0;
        let ghost before = out@;
        let item = &items[i];
        proof {
            assert(decreases_to!(*items => items[i as int]));
            assert(decreases_to!(items[i as int] => items[i as int].element));
            assert(all[i as int] == item.element@);
        }
        let text = is_text(&item.element);
        if numbered && text {
            counter += 1;
        }
        extend_from(out, indent);
        if text {
            if numbered {
                push_decimal(out, counter as u64);
                extend_chars(out, ". ");
            } else {
                extend_chars(out, "- ");
            }
        }
        let ghost prefixed = out@;
        match push_element(out, &item.element, &deeper, Ghost(depth + 1), images) {
            Ok(()) => {},
            Err(e) => {
                proof {
                    lemma_render_items_fail(
                        all,
                        (i + 1) as nat,
                        all.len(),
                        numbered,
                        depth,
                        first,
                    );
                }
                return Err(e);
            },
        }
        if text {
            extend_chars(out, "\n");
        }
        proof {
            let here = render_item(all[i as int], numbered, done.counter, depth, done.next_image)->Ok_0;
            let inner = render(all[i as int], depth + 1, done.next_image)->Ok_0;
            if text {
                assert(prefixed =~= before + indentation(depth) + item_prefix(
                    numbered,
                    counter as nat,
                ));
                assert(out@ =~= before + here.text);
            } else {
                assert(out@ =~= before + here.text);
            }
            assert(out@ =~= old(out)@ + (done.text + here.text));
        }
        i += 1;
    }
    Ok(())
}

/// What each of some buffers holds.
pub open spec fn buffers_view(buffers: Seq<Bytes>) -> Seq<Seq<u8>> {
    Seq::new(buffers.len(), |i: int| contents(buffers[i]))
}

/// Files as contracts speak of them: the characters of each name, and the
/// bytes under it.
pub open spec fn files_view(files: Seq<(String, Bytes)>) -> Seq<(Seq<char>, Seq<u8>)> {
    Seq::new(files.len(), |i: int| (files[i].0@, contents(files[i].1)))
}

/// Gathers the images of an element.
fn collect_images(out: &mut Vec<Bytes>, element: &Element)
    ensures
        buffers_view(final(out)@) == buffers_view(old(out)@) + images_of(element@),
    decreases element,
{
    match element {
        Element::Paragraph { elements } => {
            assert(decreases_to!(*element => *elements));
            let ghost all = elements_view(elements@);
            let mut i: usize = 0;
            assert(buffers_view(out@) =~= buffers_view(old(out)@) + images_among(all, 0));
            while i < elements.len()
                invariant
                    i <= elements.len(),
                    all == elements_view(elements@),
                    decreases_to!(*element => *elements),
                    buffers_view(out@) == buffers_view(old(out)@) + images_among(all, i as nat),
                decreases elements.len() - i,
            {
                proof {
                    assert(decreases_to!(*elements => elements[i as int]));
                    assert(all[i as int] == elements@[i as int]@);
                }
                collect_images(out, &elements[i]);
                i += 1;
                assert(buffers_view(out@) =~= buffers_view(old(out)@) + images_among(all, i as nat));
            }
        },
        Element::List { elements, .. } => {
            assert(decreases_to!(*element => *elements));
            let ghost all = items_view(elements@);
            let mut i: usize = 0;
            assert(buffers_view(out@) =~= buffers_view(old(out)@) + images_among(all, 0));
            while i < elements.len()
                invariant
                    i <= elements.len(),
                    all == items_view(elements@),
                    decreases_to!(*element => *elements),
                    buffers_view(out@) == buffers_view(old(out)@) + images_among(all, i as nat),
                decreases elements.len() - i,
            {
                proof {
                    assert(decreases_to!(*elements => elements[i as int]));
                    assert(decreases_to!(elements[i as int] => elements[i as int].element));
                    assert(all[i as int] == elements@[i as int].element@);
                }
                collect_images(out, &elements[i].element);
                i += 1;
                assert(buffers_view(out@) =~= buffers_view(old(out)@) + images_among(all, i as nat));
            }
        },
        Element::Image(image) => {
            out.push(duplicate(image.bytes()));
            assert(buffers_view(out@) =~= buffers_view(old(out)@) + images_of(element@));
        },
        _ => {
            assert(buffers_view(out@) =~= buffers_view(old(out)@) + images_of(element@));
        },
    }
}

/// Gathers the images of the elements of a band.
fn collect_band(out: &mut Vec<Bytes>, elements: &Vec<Element>)
    ensures
        buffers_view(final(out)@) == buffers_view(old(out)@) + images_among(
            elements_view(elements@),
            elements@.len(),
        ),
{
    let ghost all = elements_view(elements@);
    let mut i: usize = 0;
    assert(buffers_view(out@) =~= buffers_view(old(out)@) + images_among(all, 0));
    while i < elements.len()
        invariant
            i <= elements.len(),
            all == elements_view(elements@),
            buffers_view(out@) == buffers_view(old(out)@) + images_among(all, i as nat),
        decreases elements.len() - i,
    {
        assert(all[i as int] == elements@[i as int]@);
        collect_images(out, &elements[i]);
        i += 1;
        assert(buffers_view(out@) =~= buffers_view(old(out)@) + images_among(all, i as nat));
    }
}

/// Splits a text into its lines.
pub fn split_lines(text: &str) -> (lines: Vec<Vec<char>>)
    ensures
        lines@.len() == lines_of(text@).len(),
        forall|i: int| 0 <= i < lines@.len() ==> (#[trigger] lines@[i])@ == lines_of(text@)[i],
{
    let chars = chars_of(text);
    let mut lines: Vec<Vec<char>> = Vec::new();
    let mut open: Vec<char> = Vec::new();
    let mut i: usize = 0;
    while i < chars.len()
        invariant
            i <= chars.len(),
            chars@ == text@,
            open@ == scanned(text@, i as nat).open,
            lines@.len() == scanned(text@, i as nat).closed.len(),
            forall|k: int|
                0 <= k < lines@.len() ==> (#[trigger] lines@[k])@ == scanned(
                    text@,
                    i as nat,
                ).closed[k],
        decreases chars.len() - i,
    {
        let c = chars[i];
        if c == '\n' {
            if open.len() > 0 && open[open.len() - 1] == '\r' {
                open.pop();
            }
            lines.push(open);
            open = Vec::new();
        } else {
            open.push(c);
        }
        i += 1;
    }
    if open.len() > 0 {
        lines.push(open);
    }
    lines
}

impl Transformer {
    /// Reads plain text into a document.
    pub fn parse(document: &Bytes) -> (r: Result<Document, ParserError>)
        ensures
            match parsed(contents(*document)) {
                Ok(view) => r matches Ok(d) && d@ == view,
                Err(e) => r matches Err(x) && x == e,
            },
    {
        let text = match string_from_utf8(as_slice(document)) {
            Some(text) => text,
            None => {
                return Err(ParserError::InvalidUtf8);
            },
        };
        let lines = split_lines(text.as_str());
        let ghost wanted = line_elements(lines_of(text@));
        let mut elements: Vec<Element> = Vec::new();
        let mut i: usize = 0;
        while i < lines.len()
            invariant
                i <= lines.len(),
                lines@.len() == lines_of(text@).len(),
                forall|k: int|
                    0 <= k < lines@.len() ==> (#[trigger] lines@[k])@ == lines_of(text@)[k],
                wanted == line_elements(lines_of(text@)),
                elements@.len() == 2 * i,
                forall|k: int| 0 <= k < elements@.len() ==> (#[trigger] elements@[k])@ == wanted[k],
            decreases lines.len() - i,
        {
            let line = string_of(lines[i].as_slice());
            let mut feed = String::new();
            crate::chars::push_char(&mut feed, '\n');
            assert(feed@ =~= seq!['\n']);
            elements.push(Element::Text { text: line, size: TEXT_SIZE });
            elements.push(Element::Text { text: feed, size: TEXT_SIZE });
            i += 1;
        }
        assert(elements_view(elements@) =~= wanted);
        let paragraph = Element::Paragraph { elements };
        let mut body: Vec<Element> = Vec::new();
        body.push(paragraph);
        assert(elements_view(body@) =~= seq![paragraph@]);
        Ok(Document::new(body))
    }

    /// Writes a document as plain text: the bands in their order, each
    /// element after the other. A table that cannot be laid out makes the
    /// document unwritable.
    pub fn generate(document: &Document) -> (r: Result<Bytes, GenerateError>)
        ensures
            match generated(document@) {
                Ok(data) => r matches Ok(b) && contents(b) == data,
                Err(e) => r matches Err(x) && x == e,
            },
    {
        let mut out: Vec<char> = Vec::new();
        let mut images: Vec<Bytes> = Vec::new();
        let indent: Vec<char> = Vec::new();
        assert(indent@ =~= indentation(0));
        let head = document.get_elements_by_band(Band::PageHeader);
        match push_elements(&mut out, head, &indent, Ghost(0), &mut images) {
            Ok(()) => {},
            Err(e) => {
                return Err(e);
            },
        }
        let body = document.get_elements_by_band(Band::Body);
        match push_elements(&mut out, body, &indent, Ghost(0), &mut images) {
            Ok(()) => {},
            Err(e) => {
                return Err(e);
            },
        }
        let foot = document.get_elements_by_band(Band::PageFooter);
        match push_elements(&mut out, foot, &indent, Ghost(0), &mut images) {
            Ok(()) => {},
            Err(e) => {
                return Err(e);
            },
        }
        assert(out@ =~= rendered(document@)->Ok_0);
        let text = string_of(out.as_slice());
        let data = text.as_str().as_bytes_vec();
        Ok(from_vec(data))
    }

    /// The files that the text of a document refers to: the images in the
    /// order in which they are written, each under the name that the text
    /// gives it. The buffers are shared with the document, not copied.
    pub fn image_files(document: &Document) -> (files: Vec<(String, Bytes)>)
        ensures
            files_view(files@) == image_files(document@),
    {
        let mut found: Vec<Bytes> = Vec::new();
        assert(buffers_view(found@) =~= Seq::empty());
        collect_band(&mut found, document.get_elements_by_band(Band::PageHeader));
        collect_band(&mut found, document.get_elements_by_band(Band::Body));
        collect_band(&mut found, document.get_elements_by_band(Band::PageFooter));
        assert(buffers_view(found@) =~= images_in(document@));
        let mut files: Vec<(String, Bytes)> = Vec::new();
        let mut k: usize = 0;
        while k < found.len()
            invariant
                k <= found.len(),
                buffers_view(found@) == images_in(document@),
                files@.len() == k,
                forall|i: int|
                    0 <= i < k ==> (#[trigger] files@[i]).0@ == image_name(i) && contents(
                        files@[i].1,
                    ) == images_in(document@)[i],
            decreases found.len() - k,
        {
            let mut name: Vec<char> = Vec::new();
            extend_chars(&mut name, "image");
            push_decimal(&mut name, k as u64);
            extend_chars(&mut name, ".png");
            assert(name@ =~= image_name(k as int));
            assert(buffers_view(found@)[k as int] == contents(found@[k as int]));
            files.push((string_of(name.as_slice()), duplicate(&found[k])));
            k += 1;
        }
        assert(files_view(files@) =~= image_files(document@));
        files
    }
}

} // verus!
