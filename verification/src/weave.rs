//! What survives writing and reading: the texts of a document.
//!
//! Plain text keeps no structure. What it keeps is the text: every text of a
//! document stands in what is written, in the order of the document, and what
//! is read back from the written text holds it line by line. The proofs of
//! this stand here.

use vstd::prelude::*;
use vstd::utf8::{encode_utf8_decode_utf8, encode_utf8_valid_utf8};
use crate::model::{text_element, DocumentView, ElementView, ParserError};
use crate::chars::{decimal, repeated};
use crate::text::{
    cell_len,
    indentation,
    item_prefix,
    cell_text,
    cells_text,
    generated,
    line_elements,
    lines_of,
    parsed,
    render,
    render_all,
    render_item,
    render_items,
    rendered,
    row_line,
    rows_text,
    rule_line,
    rule_text,
    scanned,
    table_text,
    column_widths,
    width_at,
    without_return,
};

verus! {

/// Whether a text stands in another at `k`.
pub open spec fn stands_at(hay: Seq<char>, text: Seq<char>, k: int) -> bool {
    0 <= k && k + text.len() <= hay.len() && hay.subrange(k, k + text.len()) == text
}

/// Whether a text holds the given texts one after the other, without overlap:
/// the first somewhere, the second somewhere behind it, and so on.
pub open spec fn woven(hay: Seq<char>, texts: Seq<Seq<char>>) -> bool
    decreases texts.len(),
{
    texts.len() == 0 || exists|k: int|
        #[trigger] stands_at(hay, texts[0], k) && woven(
            hay.skip(k + texts[0].len()),
            texts.skip(1),
        )
}

/// The texts of the cells among the first `count` that are text.
pub open spec fn cell_texts(cells: Seq<ElementView>, count: nat) -> Seq<Seq<char>>
    decreases count,
{
    if count == 0 || count > cells.len() {
        Seq::empty()
    } else if cells[count - 1] is Text {
        cell_texts(cells, (count - 1) as nat).push(cells[count - 1]->Text_text)
    } else {
        cell_texts(cells, (count - 1) as nat)
    }
}

/// The texts of the cells of the first `count` rows, row by row.
pub open spec fn row_texts(rows: Seq<Seq<ElementView>>, count: nat) -> Seq<Seq<char>>
    decreases count,
{
    if count == 0 || count > rows.len() {
        Seq::empty()
    } else {
        row_texts(rows, (count - 1) as nat) + cell_texts(rows[count - 1], rows[count - 1].len())
    }
}

/// The texts of an element in the order of the document: its own text, the
/// texts of what it holds, and of a table the texts of the cells that are
/// text. Links and images have none.
pub open spec fn texts_of(element: ElementView) -> Seq<Seq<char>>
    decreases element, 0nat,
{
    match element {
        ElementView::Text { text, .. } => seq![text],
        ElementView::Header { text, .. } => seq![text],
        ElementView::Paragraph { elements } => texts_among(elements, elements.len()),
        ElementView::List { elements, .. } => texts_among(elements, elements.len()),
        ElementView::Table { headers, rows } => cell_texts(headers, headers.len()) + row_texts(
            rows,
            rows.len(),
        ),
        _ => Seq::empty(),
    }
}

/// The texts of the first `count` elements.
pub open spec fn texts_among(elements: Seq<ElementView>, count: nat) -> Seq<Seq<char>>
    decreases elements, count,
{
    if count == 0 || count > elements.len() {
        Seq::empty()
    } else {
        texts_among(elements, (count - 1) as nat) + texts_of(elements[count - 1])
    }
}

/// The texts of a document, band after band.
pub open spec fn document_texts(document: DocumentView) -> Seq<Seq<char>> {
    texts_among(document.page_header, document.page_header.len()) + texts_among(
        document.body,
        document.body.len(),
    ) + texts_among(document.page_footer, document.page_footer.len())
}

/// The texts of the first `count` elements that are text, one after the
/// other: what a paragraph that was read holds.
pub open spec fn joined(elements: Seq<ElementView>, count: nat) -> Seq<char>
    decreases count,
{
    if count == 0 || count > elements.len() {
        Seq::empty()
    } else if elements[count - 1] is Text {
        joined(elements, (count - 1) as nat) + elements[count - 1]->Text_text
    } else {
        joined(elements, (count - 1) as nat)
    }
}

/// A text with a line feed at its end, added where the last line had none.
pub open spec fn closed(text: Seq<char>) -> Seq<char> {
    if text.len() > 0 && text.last() != '\n' {
        text.push('\n')
    } else {
        text
    }
}

/// The first `count` lines, each with a line feed behind it.
pub open spec fn flat(lines: Seq<Seq<char>>, count: nat) -> Seq<char>
    decreases count,
{
    if count == 0 || count > lines.len() {
        Seq::empty()
    } else {
        flat(lines, (count - 1) as nat) + lines[count - 1] + seq!['\n']
    }
}

/// A text holds itself.
pub proof fn lemma_woven_one(text: Seq<char>)
    ensures
        woven(text, seq![text]),
{
    let texts = seq![text];
    assert(text.subrange(0, text.len() as int) =~= text);
    assert(texts.skip(1).len() == 0);
    assert(stands_at(text, texts[0], 0));
    assert(woven(text.skip(0 + texts[0].len() as int), texts.skip(1)));
}

/// What is woven into a text is woven into it behind anything.
pub proof fn lemma_woven_behind(gap: Seq<char>, hay: Seq<char>, texts: Seq<Seq<char>>)
    requires
        woven(hay, texts),
    ensures
        woven(gap + hay, texts),
{
    if texts.len() > 0 {
        let n = texts[0].len() as int;
        let k = choose|k: int|
            #[trigger] stands_at(hay, texts[0], k) && woven(hay.skip(k + n), texts.skip(1));
        assert((gap + hay).subrange(gap.len() + k, gap.len() + k + n) =~= hay.subrange(k, k + n));
        assert((gap + hay).skip(gap.len() + k + n) =~= hay.skip(k + n));
        assert(stands_at(gap + hay, texts[0], gap.len() + k));
    }
}

/// What is woven into two texts is woven into the one behind the other.
pub proof fn lemma_woven_both(
    a: Seq<char>,
    s: Seq<Seq<char>>,
    b: Seq<char>,
    t: Seq<Seq<char>>,
)
    requires
        woven(a, s),
        woven(b, t),
    ensures
        woven(a + b, s + t),
    decreases s.len(),
{
    if s.len() == 0 {
        assert(s + t =~= t);
        lemma_woven_behind(a, b, t);
    } else {
        let n = s[0].len() as int;
        let k = choose|k: int| #[trigger] stands_at(a, s[0], k) && woven(a.skip(k + n), s.skip(1));
        lemma_woven_both(a.skip(k + n), s.skip(1), b, t);
        assert((a + b).skip(k + n) =~= a.skip(k + n) + b);
        assert((s + t).skip(1) =~= s.skip(1) + t);
        assert((s + t)[0] == s[0]);
        assert((a + b).subrange(k, k + n) =~= a.subrange(k, k + n));
        assert(stands_at(a + b, (s + t)[0], k));
    }
}

/// What is woven into a text is woven into it before anything.
pub proof fn lemma_woven_before(hay: Seq<char>, texts: Seq<Seq<char>>, gap: Seq<char>)
    requires
        woven(hay, texts),
    ensures
        woven(hay + gap, texts),
{
    lemma_woven_both(hay, texts, gap, Seq::empty());
    assert(texts + Seq::<Seq<char>>::empty() =~= texts);
}

/// A cell that is text holds its text as it is written.
pub proof fn lemma_cell_weaves(cell: ElementView, width: nat)
    requires
        cell is Text,
    ensures
        woven(cell_text(cell, width), seq![cell->Text_text]),
{
    let text = cell->Text_text;
    let fill = repeated(' ', (width - cell_len(cell)) as nat);
    lemma_woven_one(text);
    lemma_woven_behind("| "@, text, seq![text]);
    lemma_woven_before("| "@ + text, seq![text], fill);
    lemma_woven_before("| "@ + text + fill, seq![text], " "@);
}

/// The cells of a row hold the texts of the cells that are text.
pub proof fn lemma_cells_weave(cells: Seq<ElementView>, widths: Seq<nat>, count: nat)
    requires
        count <= cells.len(),
    ensures
        woven(cells_text(cells, widths, count), cell_texts(cells, count)),
    decreases count,
{
    if count > 0 {
        lemma_cells_weave(cells, widths, (count - 1) as nat);
        let cell = cells[count - 1];
        let here = cell_text(cell, width_at(widths, count - 1));
        let before = cells_text(cells, widths, (count - 1) as nat);
        let texts = cell_texts(cells, (count - 1) as nat);
        if cell is Text {
            lemma_cell_weaves(cell, width_at(widths, count - 1));
            lemma_woven_both(before, texts, here, seq![cell->Text_text]);
            assert(texts + seq![cell->Text_text] =~= texts.push(cell->Text_text));
        } else {
            lemma_woven_before(before, texts, here);
        }
    }
}

/// The rows of a table hold the texts of their cells, row by row.
pub proof fn lemma_rows_weave(rows: Seq<Seq<ElementView>>, widths: Seq<nat>, count: nat)
    requires
        count <= rows.len(),
    ensures
        woven(rows_text(rows, widths, count), row_texts(rows, count)),
    decreases count,
{
    if count > 0 {
        lemma_rows_weave(rows, widths, (count - 1) as nat);
        let cells = rows[count - 1];
        lemma_cells_weave(cells, widths, cells.len());
        lemma_woven_before(
            cells_text(cells, widths, cells.len()),
            cell_texts(cells, cells.len()),
            "|\n"@,
        );
        lemma_woven_both(
            rows_text(rows, widths, (count - 1) as nat),
            row_texts(rows, (count - 1) as nat),
            row_line(cells, widths),
            cell_texts(cells, cells.len()),
        );
    }
}

/// A table as it is written holds the texts of its cells: those of the header
/// row, then those of the rows.
pub proof fn lemma_table_weaves(headers: Seq<ElementView>, rows: Seq<Seq<ElementView>>)
    ensures
        woven(table_text(headers, rows), cell_texts(headers, headers.len()) + row_texts(
            rows,
            rows.len(),
        )),
{
    let widths = column_widths(headers, rows);
    lemma_cells_weave(headers, widths, headers.len());
    lemma_woven_before(
        cells_text(headers, widths, headers.len()),
        cell_texts(headers, headers.len()),
        "|\n"@ + rule_line(widths),
    );
    lemma_rows_weave(rows, widths, rows.len());
    lemma_woven_before(rows_text(rows, widths, rows.len()), row_texts(rows, rows.len()), "\n"@);
    lemma_woven_both(
        cells_text(headers, widths, headers.len()) + ("|\n"@ + rule_line(widths)),
        cell_texts(headers, headers.len()),
        rows_text(rows, widths, rows.len()) + "\n"@,
        row_texts(rows, rows.len()),
    );
    assert(cells_text(headers, widths, headers.len()) + ("|\n"@ + rule_line(widths)) + (rows_text(
        rows,
        widths,
        rows.len(),
    ) + "\n"@) =~= table_text(headers, rows));
}

/// An element as it is written holds the element's texts, in their order.
pub proof fn lemma_render_weaves(element: ElementView, depth: nat, number: int)
    requires
        render(element, depth, number) is Ok,
    ensures
        woven(render(element, depth, number)->Ok_0.text, texts_of(element)),
    decreases element, 0nat,
{
    let out = render(element, depth, number)->Ok_0.text;
    match element {
        ElementView::Text { text, .. } => {
            lemma_woven_one(text);
            if !(text.len() > 0 && text.last() == ' ') {
                lemma_woven_before(text, seq![text], seq![' ']);
                assert(text + seq![' '] =~= text.push(' '));
            }
        },
        ElementView::Header { text, .. } => {
            lemma_woven_one(text);
            lemma_woven_before(text, seq![text], "\n\n"@);
        },
        ElementView::Paragraph { elements } => {
            lemma_render_all_weaves(elements, elements.len(), depth, number);
            let inner = render_all(elements, elements.len(), depth, number)->Ok_0;
            lemma_woven_before(inner.text, texts_among(elements, elements.len()), "\n\n"@);
        },
        ElementView::List { elements, numbered } => {
            lemma_render_items_weave(elements, elements.len(), numbered, depth, number);
            let inner = render_items(elements, elements.len(), numbered, depth, number)->Ok_0;
            if depth == 0 {
                lemma_woven_before(inner.text, texts_among(elements, elements.len()), "\n"@);
            }
        },
        ElementView::Table { headers, rows } => {
            lemma_table_weaves(headers, rows);
        },
        _ => {},
    }
}

/// Elements as they are written one after the other hold their texts, in
/// their order.
pub proof fn lemma_render_all_weaves(
    elements: Seq<ElementView>,
    count: nat,
    depth: nat,
    number: int,
)
    requires
        count <= elements.len(),
        render_all(elements, count, depth, number) is Ok,
    ensures
        woven(render_all(elements, count, depth, number)->Ok_0.text, texts_among(elements, count)),
    decreases elements, count,
{
    if count > 0 {
        lemma_render_all_weaves(elements, (count - 1) as nat, depth, number);
        let before = render_all(elements, (count - 1) as nat, depth, number)->Ok_0;
        lemma_render_weaves(elements[count - 1], depth, before.next_image);
        let here = render(elements[count - 1], depth, before.next_image)->Ok_0;
        lemma_woven_both(
            before.text,
            texts_among(elements, (count - 1) as nat),
            here.text,
            texts_of(elements[count - 1]),
        );
    }
}

/// The entries of a list as they are written hold their texts, in their
/// order.
pub proof fn lemma_render_items_weave(
    items: Seq<ElementView>,
    count: nat,
    numbered: bool,
    depth: nat,
    number: int,
)
    requires
        count <= items.len(),
        render_items(items, count, numbered, depth, number) is Ok,
    ensures
        woven(
            render_items(items, count, numbered, depth, number)->Ok_0.text,
            texts_among(items, count),
        ),
    decreases items, count,
{
    if count > 0 {
        lemma_render_items_weave(items, (count - 1) as nat, numbered, depth, number);
        let before = render_items(items, (count - 1) as nat, numbered, depth, number)->Ok_0;
        let item = items[count - 1];
        let here = render_item(item, numbered, before.counter, depth, before.next_image);
        assert(here is Ok);
        assert(render(item, depth + 1, before.next_image) is Ok);
        lemma_render_weaves(item, depth + 1, before.next_image);
        let inner = render(item, depth + 1, before.next_image)->Ok_0;
        if item is Text {
            let counted: nat = if numbered {
                before.counter + 1
            } else {
                before.counter
            };
            let front = indentation(depth) + item_prefix(numbered, counted);
            lemma_woven_behind(front, inner.text, texts_of(item));
            lemma_woven_before(front + inner.text, texts_of(item), "\n"@);
        } else {
            lemma_woven_behind(indentation(depth), inner.text, texts_of(item));
        }
        lemma_woven_both(
            before.text,
            texts_among(items, (count - 1) as nat),
            here->Ok_0.text,
            texts_of(item),
        );
    }
}

/// A document as it is written holds the document's texts, band after band.
pub proof fn lemma_rendered_weaves(document: DocumentView)
    requires
        rendered(document) is Ok,
    ensures
        woven(rendered(document)->Ok_0, document_texts(document)),
{
    let head = render_all(document.page_header, document.page_header.len(), 0, 0)->Ok_0;
    let body = render_all(document.body, document.body.len(), 0, head.next_image)->Ok_0;
    let foot = render_all(document.page_footer, document.page_footer.len(), 0, body.next_image)->Ok_0;
    lemma_render_all_weaves(document.page_header, document.page_header.len(), 0, 0);
    lemma_render_all_weaves(document.body, document.body.len(), 0, head.next_image);
    lemma_render_all_weaves(document.page_footer, document.page_footer.len(), 0, body.next_image);
    lemma_woven_both(
        head.text,
        texts_among(document.page_header, document.page_header.len()),
        body.text,
        texts_among(document.body, document.body.len()),
    );
    lemma_woven_both(
        head.text + body.text,
        texts_among(document.page_header, document.page_header.len()) + texts_among(
            document.body,
            document.body.len(),
        ),
        foot.text,
        texts_among(document.page_footer, document.page_footer.len()),
    );
}

/// The lines of a text without carriage returns, with their line feeds, are
/// the text up to where the scan stands.
proof fn lemma_scan_keeps_text(text: Seq<char>, count: nat)
    requires
        count <= text.len(),
        forall|i: int| 0 <= i < text.len() ==> text[i] != '\r',
    ensures
        flat(scanned(text, count).closed, scanned(text, count).closed.len()) + scanned(
            text,
            count,
        ).open == text.take(count as int),
        scanned(text, count).open.len() > 0 ==> count > 0 && text[count - 1] != '\n',
        scanned(text, count).open.len() == 0 && count > 0 ==> text[count - 1] == '\n',
    decreases count,
{
    if count == 0 {
        assert(text.take(0) =~= Seq::<char>::empty());
        assert(flat(Seq::<Seq<char>>::empty(), 0) + Seq::<char>::empty() =~= Seq::<char>::empty());
    } else {
        lemma_scan_keeps_text(text, (count - 1) as nat);
        let before = scanned(text, (count - 1) as nat);
        let after = scanned(text, count);
        let done = flat(before.closed, before.closed.len());
        assert(text.take(count as int) =~= text.take(count - 1).push(text[count - 1]));
        if text[count - 1] == '\n' {
            if before.open.len() > 0 {
                assert(before.open.last() == text.take(count - 1).last());
            }
            assert(without_return(before.open) == before.open);
            lemma_flat_push(before.closed, before.open);
            assert(done + before.open + seq!['\n'] + Seq::<char>::empty() =~= (done
                + before.open).push('\n'));
        } else {
            assert(done + before.open.push(text[count - 1]) =~= (done + before.open).push(
                text[count - 1],
            ));
        }
    }
}

/// Lines with one more line are the lines, then that line and its line feed.
proof fn lemma_flat_push(lines: Seq<Seq<char>>, line: Seq<char>)
    ensures
        flat(lines.push(line), lines.len() + 1) == flat(lines, lines.len()) + line + seq!['\n'],
{
    lemma_flat_prefix(lines, line, lines.len());
    assert(lines.push(line)[lines.len() as int] == line);
}

proof fn lemma_flat_prefix(lines: Seq<Seq<char>>, line: Seq<char>, count: nat)
    requires
        count <= lines.len(),
    ensures
        flat(lines.push(line), count) == flat(lines, count),
    decreases count,
{
    if count > 0 {
        lemma_flat_prefix(lines, line, (count - 1) as nat);
        assert(lines.push(line)[count - 1] == lines[count - 1]);
    }
}

/// The elements that lines are read into hold, joined, each line and its line
/// feed.
proof fn lemma_joined_lines(lines: Seq<Seq<char>>, count: nat)
    requires
        count <= lines.len(),
    ensures
        joined(line_elements(lines), 2 * count) == flat(lines, count),
    decreases count,
{
    if count > 0 {
        lemma_joined_lines(lines, (count - 1) as nat);
        let elements = line_elements(lines);
        assert(elements[2 * count - 2] == text_element(lines[count - 1]));
        assert(elements[2 * count - 1] == text_element(seq!['\n']));
        assert(joined(elements, (2 * count - 1) as nat) == joined(
            elements,
            (2 * count - 2) as nat,
        ) + lines[count - 1]);
        assert(joined(elements, 2 * count) == joined(elements, (2 * count - 1) as nat) + seq![
            '\n',
        ]);
    }
}

/// What is read back from a text without carriage returns holds, joined, the
/// text itself, with a line feed at its end.
pub proof fn lemma_lines_rejoin(text: Seq<char>)
    requires
        forall|i: int| 0 <= i < text.len() ==> text[i] != '\r',
    ensures
        joined(line_elements(lines_of(text)), 2 * lines_of(text).len()) == closed(text),
{
    let scan = scanned(text, text.len());
    let lines = lines_of(text);
    lemma_scan_keeps_text(text, text.len());
    lemma_joined_lines(lines, lines.len());
    assert(text.take(text.len() as int) =~= text);
    if scan.open.len() > 0 {
        lemma_flat_push(scan.closed, scan.open);
        assert(flat(scan.closed, scan.closed.len()) + scan.open + seq!['\n'] =~= text.push('\n'));
    } else {
        assert(flat(scan.closed, scan.closed.len()) + scan.open =~= flat(
            scan.closed,
            scan.closed.len(),
        ));
    }
}

/// The elements that the written text of a document is read into.
pub open spec fn read_back(document: DocumentView) -> Seq<ElementView> {
    line_elements(lines_of(rendered(document)->Ok_0))
}

/// Writing a document and reading it again keeps its texts: where the written
/// text holds no carriage return, what is read is one paragraph whose texts,
/// joined, hold every text of the document, in the order of the document and
/// without overlap. Only what stands between them may differ.
pub proof fn lemma_texts_survive(document: DocumentView)
    requires
        rendered(document) is Ok,
        forall|i: int|
            0 <= i < rendered(document)->Ok_0.len() ==> rendered(document)->Ok_0[i] != '\r',
    ensures
        generated(document) is Ok,
        parsed(generated(document)->Ok_0) == Ok::<DocumentView, ParserError>(
            DocumentView {
                page_header: Seq::empty(),
                body: seq![ElementView::Paragraph { elements: read_back(document) }],
                page_footer: Seq::empty(),
            },
        ),
        woven(joined(read_back(document), read_back(document).len()), document_texts(document)),
{
    let text = rendered(document)->Ok_0;
    encode_utf8_valid_utf8(text);
    encode_utf8_decode_utf8(text);
    lemma_rendered_weaves(document);
    lemma_lines_rejoin(text);
    if text.len() > 0 && text.last() != '\n' {
        lemma_woven_before(text, document_texts(document), seq!['\n']);
        assert(text + seq!['\n'] =~= text.push('\n'));
    }
    let elements = line_elements(lines_of(text));
    assert(elements.len() == 2 * lines_of(text).len());
}

/// Whether a text holds no carriage return.
pub open spec fn free(text: Seq<char>) -> bool {
    forall|i: int| 0 <= i < text.len() ==> #[trigger] text[i] != '\r'
}

/// Whether the cells among the first `count` that are text hold no carriage
/// return.
pub open spec fn cells_free(cells: Seq<ElementView>, count: nat) -> bool {
    forall|i: int|
        0 <= i < count && i < cells.len() && (#[trigger] cells[i]) is Text ==> free(
            cells[i]->Text_text,
        )
}

/// Whether an element is made of text alone, and of text without carriage
/// returns: a text, a paragraph or a list of such elements, or a table.
pub open spec fn textual(element: ElementView) -> bool
    decreases element, 0nat,
{
    match element {
        ElementView::Text { text, .. } => free(text),
        ElementView::Paragraph { elements } => textual_all(elements, elements.len()),
        ElementView::List { elements, .. } => textual_all(elements, elements.len()),
        ElementView::Table { headers, rows } => cells_free(headers, headers.len()) && forall|r: int|
            0 <= r < rows.len() ==> cells_free(#[trigger] rows[r], rows[r].len()),
        _ => false,
    }
}

/// Whether the first `count` elements are textual.
pub open spec fn textual_all(elements: Seq<ElementView>, count: nat) -> bool
    decreases elements, count,
{
    if count == 0 || count > elements.len() {
        true
    } else {
        textual_all(elements, (count - 1) as nat) && textual(elements[count - 1])
    }
}

/// Two texts without carriage returns make one without.
pub proof fn lemma_free_both(a: Seq<char>, b: Seq<char>)
    requires
        free(a),
        free(b),
    ensures
        free(a + b),
{
    assert forall|i: int| 0 <= i < (a + b).len() implies #[trigger] (a + b)[i] != '\r' by {
        if i < a.len() {
            assert((a + b)[i] == a[i]);
        } else {
            assert((a + b)[i] == b[i - a.len()]);
        }
    }
}

/// What the writer puts between the texts holds no carriage return.
proof fn lemma_free_marks()
    ensures
        free("\n\n"@),
        free("\n"@),
        free("- "@),
        free(". "@),
        free("| "@),
        free(" "@),
        free("|\n"@),
        free("|"@),
{
    reveal_strlit("\n\n");
    reveal_strlit("\n");
    reveal_strlit("- ");
    reveal_strlit(". ");
    reveal_strlit("| ");
    reveal_strlit(" ");
    reveal_strlit("|\n");
    reveal_strlit("|");
}

/// A numeral holds no carriage return.
proof fn lemma_free_decimal(n: nat)
    ensures
        free(decimal(n)),
    decreases n,
{
    if n >= 10 {
        lemma_free_decimal(n / 10);
        assert forall|i: int| 0 <= i < decimal(n).len() implies #[trigger] decimal(n)[i]
            != '\r' by {
            if i < decimal(n / 10).len() {
                assert(decimal(n)[i] == decimal(n / 10)[i]);
            }
        }
    }
}

/// The cells of a row, as they are written, hold no carriage return where
/// their texts hold none.
proof fn lemma_free_cells(cells: Seq<ElementView>, widths: Seq<nat>, count: nat)
    requires
        count <= cells.len(),
        cells_free(cells, count),
    ensures
        free(cells_text(cells, widths, count)),
    decreases count,
{
    if count > 0 {
        lemma_free_cells(cells, widths, (count - 1) as nat);
        lemma_free_marks();
        let cell = cells[count - 1];
        let width = width_at(widths, count - 1);
        if cell is Text {
            let text = cell->Text_text;
            let fill = repeated(' ', (width - cell_len(cell)) as nat);
            lemma_free_both("| "@, text);
            lemma_free_both("| "@ + text, fill);
            lemma_free_both("| "@ + text + fill, " "@);
        }
        lemma_free_both(cells_text(cells, widths, (count - 1) as nat), cell_text(cell, width));
    }
}

/// The rule under a header row holds no carriage return.
proof fn lemma_free_rule(widths: Seq<nat>, count: nat)
    requires
        count <= widths.len(),
    ensures
        free(rule_text(widths, count)),
    decreases count,
{
    if count > 0 {
        lemma_free_rule(widths, (count - 1) as nat);
        lemma_free_marks();
        lemma_free_both(rule_text(widths, (count - 1) as nat), "|"@);
        lemma_free_both(
            rule_text(widths, (count - 1) as nat) + "|"@,
            repeated('-', widths[count - 1] + 2),
        );
    }
}

/// The rows of a table, as they are written, hold no carriage return where
/// their texts hold none.
proof fn lemma_free_rows(rows: Seq<Seq<ElementView>>, widths: Seq<nat>, count: nat)
    requires
        count <= rows.len(),
        forall|r: int| 0 <= r < rows.len() ==> cells_free(#[trigger] rows[r], rows[r].len()),
    ensures
        free(rows_text(rows, widths, count)),
    decreases count,
{
    if count > 0 {
        lemma_free_rows(rows, widths, (count - 1) as nat);
        lemma_free_marks();
        let cells = rows[count - 1];
        lemma_free_cells(cells, widths, cells.len());
        lemma_free_both(cells_text(cells, widths, cells.len()), "|\n"@);
        lemma_free_both(rows_text(rows, widths, (count - 1) as nat), row_line(cells, widths));
    }
}

/// A textual element, as it is written, holds no carriage return.
pub proof fn lemma_free_render(element: ElementView, depth: nat, number: int)
    requires
        textual(element),
        render(element, depth, number) is Ok,
    ensures
        free(render(element, depth, number)->Ok_0.text),
    decreases element, 0nat,
{
    lemma_free_marks();
    match element {
        ElementView::Text { text, .. } => {
            assert(free(text.push(' ')));
        },
        ElementView::Paragraph { elements } => {
            lemma_free_render_all(elements, elements.len(), depth, number);
            let inner = render_all(elements, elements.len(), depth, number)->Ok_0;
            lemma_free_both(inner.text, "\n\n"@);
        },
        ElementView::List { elements, numbered } => {
            lemma_free_render_items(elements, elements.len(), numbered, depth, number);
            let inner = render_items(elements, elements.len(), numbered, depth, number)->Ok_0;
            lemma_free_both(inner.text, "\n"@);
        },
        ElementView::Table { headers, rows } => {
            let widths = column_widths(headers, rows);
            lemma_free_cells(headers, widths, headers.len());
            lemma_free_both(cells_text(headers, widths, headers.len()), "|\n"@);
            lemma_free_rule(widths, widths.len());
            lemma_free_both(rule_text(widths, widths.len()), "|\n"@);
            lemma_free_rows(rows, widths, rows.len());
            lemma_free_both(row_line(headers, widths), rule_line(widths));
            lemma_free_both(
                row_line(headers, widths) + rule_line(widths),
                rows_text(rows, widths, rows.len()),
            );
            lemma_free_both(
                row_line(headers, widths) + rule_line(widths) + rows_text(
                    rows,
                    widths,
                    rows.len(),
                ),
                "\n"@,
            );
        },
        _ => {},
    }
}

/// Textual elements, as they are written one after the other, hold no
/// carriage return.
pub proof fn lemma_free_render_all(
    elements: Seq<ElementView>,
    count: nat,
    depth: nat,
    number: int,
)
    requires
        count <= elements.len(),
        textual_all(elements, count),
        render_all(elements, count, depth, number) is Ok,
    ensures
        free(render_all(elements, count, depth, number)->Ok_0.text),
    decreases elements, count,
{
    if count > 0 {
        lemma_free_render_all(elements, (count - 1) as nat, depth, number);
        let before = render_all(elements, (count - 1) as nat, depth, number)->Ok_0;
        lemma_free_render(elements[count - 1], depth, before.next_image);
        let here = render(elements[count - 1], depth, before.next_image)->Ok_0;
        lemma_free_both(before.text, here.text);
    }
}

/// The textual entries of a list, as they are written, hold no carriage
/// return.
pub proof fn lemma_free_render_items(
    items: Seq<ElementView>,
    count: nat,
    numbered: bool,
    depth: nat,
    number: int,
)
    requires
        count <= items.len(),
        textual_all(items, count),
        render_items(items, count, numbered, depth, number) is Ok,
    ensures
        free(render_items(items, count, numbered, depth, number)->Ok_0.text),
    decreases items, count,
{
    if count > 0 {
        lemma_free_render_items(items, (count - 1) as nat, numbered, depth, number);
        lemma_free_marks();
        let before = render_items(items, (count - 1) as nat, numbered, depth, number)->Ok_0;
        let item = items[count - 1];
        let here = render_item(item, numbered, before.counter, depth, before.next_image);
        assert(here is Ok);
        assert(render(item, depth + 1, before.next_image) is Ok);
        lemma_free_render(item, depth + 1, before.next_image);
        let inner = render(item, depth + 1, before.next_image)->Ok_0;
        if item is Text {
            let counted: nat = if numbered {
                before.counter + 1
            } else {
                before.counter
            };
            lemma_free_decimal(counted);
            lemma_free_both(decimal(counted), ". "@);
            lemma_free_both(indentation(depth), item_prefix(numbered, counted));
            let front = indentation(depth) + item_prefix(numbered, counted);
            lemma_free_both(front, inner.text);
            lemma_free_both(front + inner.text, "\n"@);
        } else {
            lemma_free_both(indentation(depth), inner.text);
        }
        lemma_free_both(before.text, here->Ok_0.text);
    }
}

/// Whether a document is made of text alone, and of text without carriage
/// returns.
pub open spec fn textual_document(document: DocumentView) -> bool {
    textual_all(document.page_header, document.page_header.len()) && textual_all(
        document.body,
        document.body.len(),
    ) && textual_all(document.page_footer, document.page_footer.len())
}

/// A document of texts, paragraphs, lists and tables whose texts hold no
/// carriage return survives writing and reading: what is read is one
/// paragraph whose texts, joined, hold every text of the document, in the
/// order of the document and without overlap.
pub proof fn lemma_textual_documents_survive(document: DocumentView)
    requires
        textual_document(document),
        rendered(document) is Ok,
    ensures
        generated(document) is Ok,
        parsed(generated(document)->Ok_0) == Ok::<DocumentView, ParserError>(
            DocumentView {
                page_header: Seq::empty(),
                body: seq![ElementView::Paragraph { elements: read_back(document) }],
                page_footer: Seq::empty(),
            },
        ),
        woven(joined(read_back(document), read_back(document).len()), document_texts(document)),
{
    let head = render_all(document.page_header, document.page_header.len(), 0, 0)->Ok_0;
    let body = render_all(document.body, document.body.len(), 0, head.next_image)->Ok_0;
    let foot = render_all(document.page_footer, document.page_footer.len(), 0, body.next_image)->Ok_0;
    lemma_free_render_all(document.page_header, document.page_header.len(), 0, 0);
    lemma_free_render_all(document.body, document.body.len(), 0, head.next_image);
    lemma_free_render_all(document.page_footer, document.page_footer.len(), 0, body.next_image);
    lemma_free_both(head.text, body.text);
    lemma_free_both(head.text + body.text, foot.text);
    lemma_texts_survive(document);
}

} // verus!
