//! The content-stream interpreter.
//!
//! A page's content is a list of drawing operations without any mark of
//! structure. The interpreter keeps a buffer of pending text and the encoding
//! of the font in use, and rebuilds paragraphs and lists from four operators:
//! set font, set text matrix, show text and end of text object.

use vstd::prelude::*;
use crate::chars::{extend_chars, same_text, string_of};
use crate::chars::ascii_alphanumeric;
use crate::decoder::{decode_pdf_text_robust, decoded_text, has_word_byte, lemma_words_are_kept};
use crate::model::{
    elements_view,
    items_view,
    lemma_elements_view_drop_last,
    lemma_elements_view_push,
    lemma_items_view_push,
    Element,
    ElementView,
    ListItem,
    ParserError,
    text_element,
    TEXT_SIZE,
};

verus! {

/// The byte that, alone in a string, closes a list item. It is a convention
/// of the files this reader was made for, not of the format.
pub const LIST_ITEM_MARK: u8 = 1;

/// A spacing adjustment below this bound stands for a gap between words.
pub const WORD_GAP: i64 = -100;

/// An operand of an operation, as far as the interpreter reads it.
#[derive(Debug, PartialEq)]
pub enum Operand {
    /// A string: bytes in the encoding of the font in use.
    Text(Vec<u8>),
    /// An array of operands.
    Array(Vec<Operand>),
    /// A whole number.
    Integer(i64),
    /// A name.
    Name(Vec<u8>),
    /// Any other object.
    Other,
}

/// An operation of a content stream.
#[derive(Debug, PartialEq)]
pub struct Operation {
    pub operator: String,
    pub operands: Vec<Operand>,
}

/// The encoding that a font declares, under the name by which the page refers
/// to the font.
#[derive(Debug, PartialEq)]
pub struct FontEncoding {
    pub name: Vec<u8>,
    pub encoding: String,
}

pub ghost enum OperandView {
    Text(Seq<u8>),
    Array(Seq<OperandView>),
    Integer(i64),
    Name(Seq<u8>),
    Other,
}

pub ghost struct OperationView {
    pub operator: Seq<char>,
    pub operands: Seq<OperandView>,
}

pub ghost struct FontEncodingView {
    pub name: Seq<u8>,
    pub encoding: Seq<char>,
}

pub open spec fn operand_view(operand: Operand) -> OperandView
    decreases operand,
{
    match operand {
        Operand::Text(data) => OperandView::Text(data@),
        Operand::Array(items) => OperandView::Array(operands_view(items@)),
        Operand::Integer(number) => OperandView::Integer(number),
        Operand::Name(name) => OperandView::Name(name@),
        Operand::Other => OperandView::Other,
    }
}

pub open spec fn operands_view(operands: Seq<Operand>) -> Seq<OperandView>
    decreases operands,
{
    Seq::new(
        operands.len(),
        |i: int| if 0 <= i < operands.len() { operand_view(operands[i]) } else { arbitrary() },
    )
}

impl View for Operand {
    type V = OperandView;

    open spec fn view(&self) -> OperandView {
        operand_view(*self)
    }
}

impl View for Operation {
    type V = OperationView;

    open spec fn view(&self) -> OperationView {
        OperationView { operator: self.operator@, operands: operands_view(self.operands@) }
    }
}

impl View for FontEncoding {
    type V = FontEncodingView;

    open spec fn view(&self) -> FontEncodingView {
        FontEncodingView { name: self.name@, encoding: self.encoding@ }
    }
}

pub open spec fn operations_view(operations: Seq<Operation>) -> Seq<OperationView> {
    Seq::new(operations.len(), |i: int| operations[i]@)
}

pub open spec fn fonts_view(fonts: Seq<FontEncoding>) -> Seq<FontEncodingView> {
    Seq::new(fonts.len(), |i: int| fonts[i]@)
}

/// What the interpreter holds between two operations of a page.
pub ghost struct Run {
    /// The elements built so far, those of earlier pages included.
    pub elements: Seq<ElementView>,
    /// The text shown since the last flush.
    pub buffer: Seq<char>,
    /// The encoding of the font in use; `None` before any font is set and
    /// after one that the page does not list.
    pub encoding: Option<Seq<char>>,
}

/// The elements after a run of text has gone to a paragraph: to the trailing
/// element if that is a paragraph, else to a new one.
pub open spec fn with_text_run(elements: Seq<ElementView>, text: Seq<char>) -> Seq<ElementView> {
    if elements.len() > 0 && elements.last() is Paragraph {
        elements.drop_last().push(
            ElementView::Paragraph {
                elements: elements.last()->Paragraph_elements.push(text_element(text)),
            },
        )
    } else {
        elements.push(ElementView::Paragraph { elements: seq![text_element(text)] })
    }
}

/// The elements after a run of text has gone to a list as an item: to the
/// trailing element if that is a list, which keeps its numbering, else to a
/// new list without numbers. A trailing paragraph stays as it is, and the new
/// list follows it.
pub open spec fn with_list_item(elements: Seq<ElementView>, text: Seq<char>) -> Seq<ElementView> {
    if elements.len() > 0 && elements.last() is List {
        elements.drop_last().push(
            ElementView::List {
                elements: elements.last()->List_elements.push(text_element(text)),
                numbered: elements.last()->numbered,
            },
        )
    } else {
        elements.push(ElementView::List { elements: seq![text_element(text)], numbered: false })
    }
}

/// The elements after a text matrix is set: pending text goes to a paragraph;
/// without pending text nothing changes.
pub open spec fn after_text_matrix(elements: Seq<ElementView>, buffer: Seq<char>) -> Seq<
    ElementView,
> {
    if buffer.len() == 0 {
        elements
    } else {
        with_text_run(elements, buffer)
    }
}

/// The elements at the end of a page: pending text goes to a trailing
/// paragraph, or to a trailing list as an item, or stands by itself.
pub open spec fn after_page(elements: Seq<ElementView>, buffer: Seq<char>) -> Seq<ElementView> {
    if buffer.len() == 0 {
        elements
    } else if elements.len() > 0 && elements.last() is Paragraph {
        with_text_run(elements, buffer)
    } else if elements.len() > 0 && elements.last() is List {
        with_list_item(elements, buffer)
    } else {
        elements.push(text_element(buffer))
    }
}

/// Whether a string is the mark that closes a list item.
pub open spec fn is_list_item_mark(data: Seq<u8>) -> bool {
    data.len() == 1 && data[0] == LIST_ITEM_MARK
}

/// The state after one operand of a show-text operation.
pub open spec fn show(run: Run, operand: OperandView) -> Run
    decreases operand,
{
    match operand {
        OperandView::Text(data) => if is_list_item_mark(data) {
            Run {
                elements: with_list_item(run.elements, run.buffer),
                buffer: Seq::empty(),
                encoding: run.encoding,
            }
        } else {
            Run {
                elements: run.elements,
                buffer: run.buffer + decoded_text(run.encoding, data),
                encoding: run.encoding,
            }
        },
        OperandView::Array(items) => show_all(run, items, items.len()),
        OperandView::Integer(number) => if number < WORD_GAP {
            Run { elements: run.elements, buffer: run.buffer.push(' '), encoding: run.encoding }
        } else {
            run
        },
        _ => run,
    }
}

/// The state after the first `count` operands, taken in their order.
pub open spec fn show_all(run: Run, operands: Seq<OperandView>, count: nat) -> Run
    decreases operands, count,
{
    if count == 0 || count > operands.len() {
        run
    } else {
        show(show_all(run, operands, (count - 1) as nat), operands[count - 1])
    }
}

/// The encoding of the first font with the given name.
pub open spec fn font_encoding(fonts: Seq<FontEncodingView>, name: Seq<u8>) -> Option<Seq<char>>
    decreases fonts.len(),
{
    if fonts.len() == 0 {
        None
    } else if fonts[0].name == name {
        Some(fonts[0].encoding)
    } else {
        font_encoding(fonts.skip(1), name)
    }
}

/// The buffer with a line break at its end, added where there was none.
pub open spec fn line_closed(buffer: Seq<char>) -> Seq<char> {
    if buffer.len() > 0 && buffer.last() == '\n' {
        buffer
    } else {
        buffer.push('\n')
    }
}

/// The state after one operation, or the error that ends the page. Setting a
/// font needs a name as its first operand.
pub open spec fn step(run: Run, fonts: Seq<FontEncodingView>, operation: OperationView) -> Result<
    Run,
    ParserError,
> {
    if operation.operator == "Tm"@ {
        Ok(
            Run {
                elements: after_text_matrix(run.elements, run.buffer),
                buffer: Seq::empty(),
                encoding: run.encoding,
            },
        )
    } else if operation.operator == "Tf"@ {
        if operation.operands.len() == 0 {
            Err(ParserError::Common)
        } else {
            match operation.operands[0] {
                OperandView::Name(name) => Ok(
                    Run {
                        elements: run.elements,
                        buffer: run.buffer,
                        encoding: font_encoding(fonts, name),
                    },
                ),
                _ => Err(ParserError::WrongType),
            }
        }
    } else if operation.operator == "Tj"@ || operation.operator == "TJ"@ {
        Ok(show_all(run, operation.operands, operation.operands.len()))
    } else if operation.operator == "ET"@ {
        Ok(Run { elements: run.elements, buffer: line_closed(run.buffer), encoding: run.encoding })
    } else {
        Ok(run)
    }
}

/// The state after the first `count` operations, or the first error.
pub open spec fn steps(
    run: Run,
    fonts: Seq<FontEncodingView>,
    operations: Seq<OperationView>,
    count: nat,
) -> Result<Run, ParserError>
    decreases count,
{
    if count == 0 || count > operations.len() {
        Ok(run)
    } else {
        match steps(run, fonts, operations, (count - 1) as nat) {
            Ok(before) => step(before, fonts, operations[count - 1]),
            Err(e) => Err(e),
        }
    }
}

/// The elements after a page: the operations run from an empty buffer with no
/// font set, and what is pending at the end is flushed.
pub open spec fn page_elements(
    elements: Seq<ElementView>,
    fonts: Seq<FontEncodingView>,
    operations: Seq<OperationView>,
) -> Result<Seq<ElementView>, ParserError> {
    let start = Run { elements, buffer: Seq::empty(), encoding: None };
    match steps(start, fonts, operations, operations.len()) {
        Ok(run) => Ok(after_page(run.elements, run.buffer)),
        Err(e) => Err(e),
    }
}

/// The operation that sets the font with the given name.
pub open spec fn set_font(name: Seq<u8>) -> OperationView {
    OperationView { operator: "Tf"@, operands: seq![OperandView::Name(name)] }
}

/// The operation that sets the text matrix.
pub open spec fn set_text_matrix() -> OperationView {
    OperationView { operator: "Tm"@, operands: Seq::empty() }
}

/// The operation that shows one string.
pub open spec fn show_text(data: Seq<u8>) -> OperationView {
    OperationView { operator: "Tj"@, operands: seq![OperandView::Text(data)] }
}

/// The operation that shows the mark that closes a list item.
pub open spec fn show_mark() -> OperationView {
    show_text(seq![LIST_ITEM_MARK])
}

/// The four operators are four different names.
proof fn lemma_operators_differ()
    ensures
        "Tm"@ != "Tf"@,
        "Tm"@ != "Tj"@,
        "Tm"@ != "TJ"@,
        "Tm"@ != "ET"@,
        "Tf"@ != "Tj"@,
        "Tf"@ != "TJ"@,
        "Tf"@ != "ET"@,
        "Tj"@ != "TJ"@,
        "Tj"@ != "ET"@,
        "TJ"@ != "ET"@,
{
    reveal_strlit("Tm");
    reveal_strlit("Tf");
    reveal_strlit("Tj");
    reveal_strlit("TJ");
    reveal_strlit("ET");
    assert("Tm"@[1] == 'm');
    assert("Tf"@[1] == 'f');
    assert("Tj"@[1] == 'j');
    assert("TJ"@[1] == 'J');
    assert("ET"@[1] == 'T');
}

/// Two runs of text, each shown after the text matrix was set, make one
/// paragraph with two texts: on an empty document, a font is set, then twice
/// the text matrix is set and a string shown. The strings may be any that
/// decode to some text under the font's encoding.
pub proof fn lemma_text_runs_make_one_paragraph(
    fonts: Seq<FontEncodingView>,
    font: Seq<u8>,
    first: Seq<u8>,
    second: Seq<u8>,
)
    requires
        !is_list_item_mark(first),
        !is_list_item_mark(second),
        decoded_text(font_encoding(fonts, font), first).len() > 0,
        decoded_text(font_encoding(fonts, font), second).len() > 0,
    ensures
        page_elements(
            Seq::empty(),
            fonts,
            seq![
                set_font(font),
                set_text_matrix(),
                show_text(first),
                set_text_matrix(),
                show_text(second),
            ],
        ) == Ok::<Seq<ElementView>, ParserError>(
            seq![
                ElementView::Paragraph {
                    elements: seq![
                        text_element(decoded_text(font_encoding(fonts, font), first)),
                        text_element(decoded_text(font_encoding(fonts, font), second)),
                    ],
                },
            ],
        ),
{
    lemma_operators_differ();
    let encoding = font_encoding(fonts, font);
    let one = decoded_text(encoding, first);
    let two = decoded_text(encoding, second);
    let operations = seq![
        set_font(font),
        set_text_matrix(),
        show_text(first),
        set_text_matrix(),
        show_text(second),
    ];
    let start = Run { elements: Seq::empty(), buffer: Seq::empty(), encoding: None };
    let s0 = steps(start, fonts, operations, 0);
    assert(s0 == Ok::<Run, ParserError>(start));
    let r1 = Run { elements: Seq::empty(), buffer: Seq::empty(), encoding };
    assert(steps(start, fonts, operations, 1) == Ok::<Run, ParserError>(r1));
    assert(steps(start, fonts, operations, 2) == Ok::<Run, ParserError>(r1));
    let r3 = Run { elements: Seq::empty(), buffer: one, encoding };
    assert(steps(start, fonts, operations, 3) == Ok::<Run, ParserError>(r3)) by {
        lemma_show_one(r1, first);
        assert(Seq::<char>::empty() + one =~= one);
    }
    let opened = seq![ElementView::Paragraph { elements: seq![text_element(one)] }];
    let r4 = Run { elements: opened, buffer: Seq::empty(), encoding };
    assert(steps(start, fonts, operations, 4) == Ok::<Run, ParserError>(r4)) by {
        assert(Seq::<ElementView>::empty().push(
            ElementView::Paragraph { elements: seq![text_element(one)] },
        ) =~= opened);
    }
    let r5 = Run { elements: opened, buffer: two, encoding };
    assert(steps(start, fonts, operations, 5) == Ok::<Run, ParserError>(r5)) by {
        lemma_show_one(r4, second);
        assert(Seq::<char>::empty() + two =~= two);
    }
    assert(after_page(opened, two) =~= seq![
        ElementView::Paragraph { elements: seq![text_element(one), text_element(two)] },
    ]) by {
        assert(seq![text_element(one)].push(text_element(two)) =~= seq![
            text_element(one),
            text_element(two),
        ]);
    }
}

/// Two runs of text with a letter or a digit of ASCII in each, each shown
/// after the text matrix was set, make one paragraph with two texts, whatever
/// the fonts of the page and whatever font is set.
pub proof fn lemma_words_make_one_paragraph(
    fonts: Seq<FontEncodingView>,
    font: Seq<u8>,
    first: Seq<u8>,
    second: Seq<u8>,
)
    requires
        has_word_byte(first),
        has_word_byte(second),
    ensures
        page_elements(
            Seq::empty(),
            fonts,
            seq![
                set_font(font),
                set_text_matrix(),
                show_text(first),
                set_text_matrix(),
                show_text(second),
            ],
        ) == Ok::<Seq<ElementView>, ParserError>(
            seq![
                ElementView::Paragraph {
                    elements: seq![
                        text_element(decoded_text(font_encoding(fonts, font), first)),
                        text_element(decoded_text(font_encoding(fonts, font), second)),
                    ],
                },
            ],
        ),
{
    lemma_words_are_kept(font_encoding(fonts, font), first);
    lemma_words_are_kept(font_encoding(fonts, font), second);
    let i = choose|i: int| 0 <= i < first.len() && ascii_alphanumeric(#[trigger] first[i] as char);
    let j = choose|j: int| 0 <= j < second.len() && ascii_alphanumeric(#[trigger] second[j] as char);
    assert(!is_list_item_mark(first)) by {
        if is_list_item_mark(first) {
            assert(i == 0);
            assert(first[0] as char == 1u8 as char);
        }
    }
    assert(!is_list_item_mark(second)) by {
        if is_list_item_mark(second) {
            assert(j == 0);
            assert(second[0] as char == 1u8 as char);
        }
    }
    lemma_text_runs_make_one_paragraph(fonts, font, first, second);
}

/// A string and the mark behind it make a list with one item; a second
/// string and mark, shown after the text matrix was set, add a second item to
/// the same list. The strings may be any but the mark itself.
pub proof fn lemma_marks_fill_one_list(first: Seq<u8>, second: Seq<u8>)
    requires
        !is_list_item_mark(first),
        !is_list_item_mark(second),
    ensures
        page_elements(Seq::empty(), Seq::empty(), seq![show_text(first), show_mark()]) == Ok::<
            Seq<ElementView>,
            ParserError,
        >(
            seq![
                ElementView::List {
                    elements: seq![text_element(decoded_text(None, first))],
                    numbered: false,
                },
            ],
        ),
        page_elements(
            Seq::empty(),
            Seq::empty(),
            seq![
                show_text(first),
                show_mark(),
                set_text_matrix(),
                show_text(second),
                show_mark(),
            ],
        ) == Ok::<Seq<ElementView>, ParserError>(
            seq![
                ElementView::List {
                    elements: seq![
                        text_element(decoded_text(None, first)),
                        text_element(decoded_text(None, second)),
                    ],
                    numbered: false,
                },
            ],
        ),
{
    lemma_operators_differ();
    let fonts = Seq::<FontEncodingView>::empty();
    let one = decoded_text(None, first);
    let two = decoded_text(None, second);
    let start = Run { elements: Seq::empty(), buffer: Seq::empty(), encoding: None };
    let listed = seq![ElementView::List { elements: seq![text_element(one)], numbered: false }];
    let both = seq![
        ElementView::List { elements: seq![text_element(one), text_element(two)], numbered: false },
    ];
    let r1 = Run { elements: Seq::empty(), buffer: one, encoding: None };
    let r2 = Run { elements: listed, buffer: Seq::empty(), encoding: None };
    let r4 = Run { elements: listed, buffer: two, encoding: None };
    let r5 = Run { elements: both, buffer: Seq::empty(), encoding: None };
    assert(show(start, OperandView::Text(first)) == r1) by {
        assert(Seq::<char>::empty() + one =~= one);
    }
    assert(show(r1, OperandView::Text(seq![LIST_ITEM_MARK])) == r2) by {
        assert(Seq::<ElementView>::empty().push(
            ElementView::List { elements: seq![text_element(one)], numbered: false },
        ) =~= listed);
    }
    assert(show(r2, OperandView::Text(second)) == r4) by {
        assert(Seq::<char>::empty() + two =~= two);
    }
    assert(show(r4, OperandView::Text(seq![LIST_ITEM_MARK])) == r5) by {
        assert(seq![text_element(one)].push(text_element(two)) =~= seq![
            text_element(one),
            text_element(two),
        ]);
        assert(listed.drop_last().push(
            ElementView::List {
                elements: seq![text_element(one), text_element(two)],
                numbered: false,
            },
        ) =~= both);
    }
    let short = seq![show_text(first), show_mark()];
    assert(steps(start, fonts, short, 0) == Ok::<Run, ParserError>(start));
    assert(steps(start, fonts, short, 1) == Ok::<Run, ParserError>(r1)) by {
        lemma_show_one(start, first);
    }
    assert(steps(start, fonts, short, 2) == Ok::<Run, ParserError>(r2)) by {
        lemma_show_one(r1, seq![LIST_ITEM_MARK]);
    }
    let long = seq![show_text(first), show_mark(), set_text_matrix(), show_text(second), show_mark()];
    assert(steps(start, fonts, long, 0) == Ok::<Run, ParserError>(start));
    assert(steps(start, fonts, long, 1) == Ok::<Run, ParserError>(r1)) by {
        lemma_show_one(start, first);
    }
    assert(steps(start, fonts, long, 2) == Ok::<Run, ParserError>(r2)) by {
        lemma_show_one(r1, seq![LIST_ITEM_MARK]);
    }
    assert(steps(start, fonts, long, 3) == Ok::<Run, ParserError>(r2));
    assert(steps(start, fonts, long, 4) == Ok::<Run, ParserError>(r4)) by {
        lemma_show_one(r2, second);
    }
    assert(steps(start, fonts, long, 5) == Ok::<Run, ParserError>(r5)) by {
        lemma_show_one(r4, seq![LIST_ITEM_MARK]);
    }
}

/// Showing the operands of an operation with one string is showing that
/// string.
proof fn lemma_show_one(run: Run, data: Seq<u8>)
    ensures
        show_all(run, seq![OperandView::Text(data)], 1) == show(run, OperandView::Text(data)),
{
    let operands = seq![OperandView::Text(data)];
    assert(show_all(run, operands, 0) == run);
    assert(operands[0] == OperandView::Text(data));
}

/// Whether all but the last of some elements are still in their places: the
/// interpreter only extends the last element or puts new ones behind it.
pub open spec fn keeps_front(before: Seq<ElementView>, after: Seq<ElementView>) -> bool {
    &&& before.len() <= after.len()
    &&& forall|i: int| 0 <= i < before.len() - 1 ==> #[trigger] after[i] == before[i]
}

/// Showing an operand leaves all but the last element in place.
pub proof fn lemma_show_keeps_front(run: Run, operand: OperandView)
    ensures
        keeps_front(run.elements, show(run, operand).elements),
    decreases operand, 0nat,
{
    match operand {
        OperandView::Array(items) => {
            lemma_show_all_keeps_front(run, items, items.len());
        },
        _ => {},
    }
}

/// Showing operands leaves all but the last element in place.
pub proof fn lemma_show_all_keeps_front(run: Run, operands: Seq<OperandView>, count: nat)
    ensures
        keeps_front(run.elements, show_all(run, operands, count).elements),
    decreases operands, count,
{
    if !(count == 0 || count > operands.len()) {
        lemma_show_all_keeps_front(run, operands, (count - 1) as nat);
        lemma_show_keeps_front(show_all(run, operands, (count - 1) as nat), operands[count - 1]);
    }
}

/// Running operations leaves all but the last element in place.
pub proof fn lemma_steps_keep_front(
    run: Run,
    fonts: Seq<FontEncodingView>,
    operations: Seq<OperationView>,
    count: nat,
)
    requires
        steps(run, fonts, operations, count) is Ok,
    ensures
        keeps_front(run.elements, steps(run, fonts, operations, count)->Ok_0.elements),
    decreases count,
{
    if !(count == 0 || count > operations.len()) {
        lemma_steps_keep_front(run, fonts, operations, (count - 1) as nat);
        let before = steps(run, fonts, operations, (count - 1) as nat)->Ok_0;
        let operation = operations[count - 1];
        if operation.operator == "Tm"@ {
        } else if operation.operator == "Tf"@ {
        } else if operation.operator == "Tj"@ || operation.operator == "TJ"@ {
            lemma_show_all_keeps_front(before, operation.operands, operation.operands.len());
        }
    }
}

/// Whether two sequences of elements hold the same images in the same
/// places: what the interpreter keeps of the elements it is given.
pub open spec fn same_images(before: Seq<ElementView>, after: Seq<ElementView>) -> bool {
    &&& before.len() <= after.len()
    &&& forall|i: int| 0 <= i < before.len() && (#[trigger] before[i]) is Image ==> after[i] == before[i]
    &&& forall|i: int|
        0 <= i < after.len() && (#[trigger] after[i]) is Image ==> i < before.len() && before[i] is Image
}

/// Showing an operand neither adds an image nor touches one.
pub proof fn lemma_show_keeps_images(run: Run, operand: OperandView)
    ensures
        same_images(run.elements, show(run, operand).elements),
    decreases operand, 0nat,
{
    match operand {
        OperandView::Array(items) => {
            lemma_show_all_keeps_images(run, items, items.len());
        },
        _ => {},
    }
}

/// Showing operands neither adds an image nor touches one.
pub proof fn lemma_show_all_keeps_images(run: Run, operands: Seq<OperandView>, count: nat)
    ensures
        same_images(run.elements, show_all(run, operands, count).elements),
    decreases operands, count,
{
    if !(count == 0 || count > operands.len()) {
        lemma_show_all_keeps_images(run, operands, (count - 1) as nat);
        lemma_show_keeps_images(show_all(run, operands, (count - 1) as nat), operands[count - 1]);
    }
}

/// Running operations neither adds an image nor touches one.
pub proof fn lemma_steps_keep_images(
    run: Run,
    fonts: Seq<FontEncodingView>,
    operations: Seq<OperationView>,
    count: nat,
)
    requires
        steps(run, fonts, operations, count) is Ok,
    ensures
        same_images(run.elements, steps(run, fonts, operations, count)->Ok_0.elements),
    decreases count,
{
    if !(count == 0 || count > operations.len()) {
        lemma_steps_keep_images(run, fonts, operations, (count - 1) as nat);
        let before = steps(run, fonts, operations, (count - 1) as nat)->Ok_0;
        let operation = operations[count - 1];
        if operation.operator == "Tm"@ {
        } else if operation.operator == "Tf"@ {
        } else if operation.operator == "Tj"@ || operation.operator == "TJ"@ {
            lemma_show_all_keeps_images(before, operation.operands, operation.operands.len());
        }
    }
}

/// A page's content neither adds an image to the elements nor touches one:
/// the images behind a page are those before it, in their places.
pub proof fn lemma_page_keeps_images(
    elements: Seq<ElementView>,
    fonts: Seq<FontEncodingView>,
    operations: Seq<OperationView>,
)
    requires
        page_elements(elements, fonts, operations) is Ok,
    ensures
        same_images(elements, page_elements(elements, fonts, operations)->Ok_0),
{
    let start = Run { elements, buffer: Seq::empty(), encoding: None };
    lemma_steps_keep_images(start, fonts, operations, operations.len());
}

/// Puts a run of text into a paragraph at the end of the elements.
fn push_text_run(elements: &mut Vec<Element>, text: String)
    ensures
        elements_view(final(elements)@) == with_text_run(elements_view(old(elements)@), text@),
{
    let run = Element::Text { text, size: TEXT_SIZE };
    let ghost run_before = run;
    let ghost before = elements@;
    let mut children: Vec<Element> = Vec::new();
    match elements.pop() {
        Some(Element::Paragraph { elements: found }) => {
            children = found;
            proof {
                lemma_elements_view_drop_last(before);
                lemma_elements_view_push(children@, run);
            }
        },
        Some(other) => {
            proof {
                lemma_elements_view_drop_last(before);
                assert(elements@.push(other) =~= before);
                assert(elements_view(children@.push(run)) =~= seq![run@]);
            }
            elements.push(other);
        },
        None => {
            proof {
                assert(elements_view(before) =~= Seq::empty());
                assert(elements_view(children@.push(run)) =~= seq![run@]);
            }
        },
    }
    children.push(run);
    let paragraph = Element::Paragraph { elements: children };
    proof {
        lemma_elements_view_push(elements@, paragraph);
    }
    elements.push(paragraph);
}

/// Puts a run of text into a list at the end of the elements, as an item.
fn push_list_item(elements: &mut Vec<Element>, text: String)
    ensures
        elements_view(final(elements)@) == with_list_item(elements_view(old(elements)@), text@),
{
    let item = ListItem { element: Element::Text { text, size: TEXT_SIZE } };
    let ghost before = elements@;
    let mut items: Vec<ListItem> = Vec::new();
    let mut numbered = false;
    match elements.pop() {
        Some(Element::List { elements: found, numbered: kept }) => {
            items = found;
            numbered = kept;
            proof {
                lemma_elements_view_drop_last(before);
                lemma_items_view_push(items@, item);
            }
        },
        Some(other) => {
            proof {
                lemma_elements_view_drop_last(before);
                assert(elements@.push(other) =~= before);
                assert(items_view(items@.push(item)) =~= seq![item@]);
            }
            elements.push(other);
        },
        None => {
            proof {
                assert(elements_view(before) =~= Seq::empty());
                assert(items_view(items@.push(item)) =~= seq![item@]);
            }
        },
    }
    items.push(item);
    let list = Element::List { elements: items, numbered };
    proof {
        lemma_elements_view_push(elements@, list);
    }
    elements.push(list);
}

/// The characters of an encoding's name, where one is set.
pub open spec fn encoding_of(encoding: Option<String>) -> Option<Seq<char>> {
    match encoding {
        Some(name) => Some(name@),
        None => None,
    }
}

/// The state that the interpreter's variables stand for.
pub open spec fn run_of(elements: Seq<Element>, buffer: Seq<char>, encoding: Option<String>) -> Run {
    Run { elements: elements_view(elements), buffer, encoding: encoding_of(encoding) }
}

/// Shows one operand: a string is decoded into the buffer, unless it is the
/// mark that closes a list item; an array is shown operand by operand; a
/// wide negative adjustment becomes a blank.
fn show_operand(
    operand: &Operand,
    encoding: &Option<String>,
    buffer: &mut Vec<char>,
    elements: &mut Vec<Element>,
)
    ensures
        run_of(final(elements)@, final(buffer)@, *encoding) == show(
            run_of(old(elements)@, old(buffer)@, *encoding),
            operand@,
        ),
    decreases operand,
{
    match operand {
        Operand::Text(data) => {
            if data.len() == 1 && data[0] == LIST_ITEM_MARK {
                let text = string_of(buffer.as_slice());
                push_list_item(elements, text);
                buffer.clear();
            } else {
                let declared: Option<&str> = match encoding {
                    Some(name) => Some(name.as_str()),
                    None => None,
                };
                let text = decode_pdf_text_robust(declared, data.as_slice());
                extend_chars(buffer, text.as_str());
            }
        },
        Operand::Array(items) => {
            show_operands(items, encoding, buffer, elements);
        },
        Operand::Integer(number) => {
            if *number < WORD_GAP {
                buffer.push(' ');
            }
        },
        _ => {},
    }
}

/// Shows the operands in their order.
fn show_operands(
    operands: &Vec<Operand>,
    encoding: &Option<String>,
    buffer: &mut Vec<char>,
    elements: &mut Vec<Element>,
)
    ensures
        run_of(final(elements)@, final(buffer)@, *encoding) == show_all(
            run_of(old(elements)@, old(buffer)@, *encoding),
            operands_view(operands@),
            operands@.len(),
        ),
    decreases operands,
{
    let ghost start = run_of(elements@, buffer@, *encoding);
    let mut i: usize = 0;
    while i < operands.len()
        invariant
            i <= operands.len(),
            run_of(elements@, buffer@, *encoding) == show_all(
                start,
                operands_view(operands@),
                i as nat,
            ),
        decreases operands.len() - i,
    {
        proof {
            assert(decreases_to!(*operands => operands[i as int]));
        }
        show_operand(&operands[i], encoding, buffer, elements);
        i += 1;
    }
}

/// Looks a font up by the name under which the page lists it.
pub fn find_font_encoding(fonts: &Vec<FontEncoding>, name: &Vec<u8>) -> (r: Option<String>)
    ensures
        encoding_of(r) == font_encoding(fonts_view(fonts@), name@),
{
    let mut i: usize = 0;
    proof {
        assert(fonts_view(fonts@).skip(0) =~= fonts_view(fonts@));
    }
    while i < fonts.len()
        invariant
            i <= fonts.len(),
            font_encoding(fonts_view(fonts@), name@) == font_encoding(
                fonts_view(fonts@).skip(i as int),
                name@,
            ),
        decreases fonts.len() - i,
    {
        let ghost rest = fonts_view(fonts@).skip(i as int);
        assert(rest[0] == fonts@[i as int]@);
        if same_bytes(&fonts[i].name, name) {
            return Some(fonts[i].encoding.clone());
        }
        proof {
            assert(rest.skip(1) =~= fonts_view(fonts@).skip(i + 1));
        }
        i += 1;
    }
    None
}

/// Whether two byte strings are equal.
fn same_bytes(a: &Vec<u8>, b: &Vec<u8>) -> (r: bool)
    ensures
        r == (a@ == b@),
{
    if a.len() != b.len() {
        return false;
    }
    let mut i: usize = 0;
    while i < a.len()
        invariant
            i <= a.len(),
            a.len() == b.len(),
            forall|k: int| 0 <= k < i ==> a@[k] == b@[k],
        decreases a.len() - i,
    {
        if a[i] != b[i] {
            return false;
        }
        i += 1;
    }
    assert(a@ =~= b@);
    true
}

/// Runs one operation.
fn run_operation(
    operation: &Operation,
    fonts: &Vec<FontEncoding>,
    encoding: &mut Option<String>,
    buffer: &mut Vec<char>,
    elements: &mut Vec<Element>,
) -> (r: Result<(), ParserError>)
    ensures
        match step(
            run_of(old(elements)@, old(buffer)@, *old(encoding)),
            fonts_view(fonts@),
            operation@,
        ) {
            Ok(run) => r is Ok && run_of(final(elements)@, final(buffer)@, *final(encoding)) == run,
            Err(e) => r == Err::<(), ParserError>(e) && final(elements)@ == old(elements)@,
        },
{
    let operator = operation.operator.as_str();
    if same_text(operator, "Tm") {
        if buffer.len() > 0 {
            let text = string_of(buffer.as_slice());
            push_text_run(elements, text);
        }
        buffer.clear();
    } else if same_text(operator, "Tf") {
        if operation.operands.len() == 0 {
            return Err(ParserError::Common);
        }
        match &operation.operands[0] {
            Operand::Name(name) => {
                *encoding = find_font_encoding(fonts, name);
            },
            _ => {
                return Err(ParserError::WrongType);
            },
        }
    } else if same_text(operator, "Tj") || same_text(operator, "TJ") {
        show_operands(&operation.operands, encoding, buffer, elements);
    } else if same_text(operator, "ET") {
        if !(buffer.len() > 0 && buffer[buffer.len() - 1] == '\n') {
            buffer.push('\n');
        }
    }
    Ok(())
}

/// Interprets the operations of one page and appends what they show to the
/// elements. The fonts are those of this page. Text still pending at the end
/// of the page is flushed. Whether the page is read to its end or an
/// operation fails, the elements given stay in place but for the last, which
/// may have been extended.
pub fn interpret_page(
    fonts: &Vec<FontEncoding>,
    operations: &Vec<Operation>,
    elements: &mut Vec<Element>,
) -> (r: Result<(), ParserError>)
    ensures
        match page_elements(
            elements_view(old(elements)@),
            fonts_view(fonts@),
            operations_view(operations@),
        ) {
            Ok(after) => r is Ok && elements_view(final(elements)@) == after,
            Err(e) => r == Err::<(), ParserError>(e),
        },
        keeps_front(elements_view(old(elements)@), elements_view(final(elements)@)),
{
    let mut buffer: Vec<char> = Vec::new();
    let mut encoding: Option<String> = None;
    let ghost start = run_of(elements@, buffer@, encoding);
    let mut i: usize = 0;
    while i < operations.len()
        invariant
            i <= operations.len(),
            start == (Run {
                elements: elements_view(old(elements)@),
                buffer: Seq::empty(),
                encoding: None,
            }),
            steps(start, fonts_view(fonts@), operations_view(operations@), i as nat) == Ok::<
                Run,
                ParserError,
            >(run_of(elements@, buffer@, encoding)),
        decreases operations.len() - i,
    {
        let ghost before = run_of(elements@, buffer@, encoding);
        assert(operations_view(operations@)[i as int] == operations@[i as int]@);
        match run_operation(&operations[i], fonts, &mut encoding, &mut buffer, elements) {
            Ok(()) => {},
            Err(e) => {
                proof {
                    assert(steps(
                        start,
                        fonts_view(fonts@),
                        operations_view(operations@),
                        (i + 1) as nat,
                    ) == step(before, fonts_view(fonts@), operations@[i as int]@));
                    lemma_steps_fail(
                        start,
                        fonts_view(fonts@),
                        operations_view(operations@),
                        (i + 1) as nat,
                        operations@.len(),
                    );
                    lemma_steps_keep_front(
                        start,
                        fonts_view(fonts@),
                        operations_view(operations@),
                        i as nat,
                    );
                }
                return Err(e);
            },
        }
        i += 1;
    }
    proof {
        lemma_steps_keep_front(
            start,
            fonts_view(fonts@),
            operations_view(operations@),
            operations@.len(),
        );
    }
    if buffer.len() > 0 {
        let text = string_of(buffer.as_slice());
        let n = elements.len();
        if n == 0 {
            proof {
                lemma_elements_view_push(elements@, Element::Text { text, size: TEXT_SIZE });
            }
            elements.push(Element::Text { text, size: TEXT_SIZE });
        } else {
            match &elements[n - 1] {
                Element::Paragraph { .. } => {
                    push_text_run(elements, text);
                },
                Element::List { .. } => {
                    push_list_item(elements, text);
                },
                _ => {
                    proof {
                        lemma_elements_view_push(
                            elements@,
                            Element::Text { text, size: TEXT_SIZE },
                        );
                    }
                    elements.push(Element::Text { text, size: TEXT_SIZE });
                },
            }
        }
    }
    Ok(())
}

/// Once an operation has failed, the page has failed, whatever follows.
proof fn lemma_steps_fail(
    run: Run,
    fonts: Seq<FontEncodingView>,
    operations: Seq<OperationView>,
    at: nat,
    count: nat,
)
    requires
        at <= count <= operations.len(),
        steps(run, fonts, operations, at) is Err,
    ensures
        steps(run, fonts, operations, count) == steps(run, fonts, operations, at),
    decreases count,
{
    if at < count {
        lemma_steps_fail(run, fonts, operations, at, (count - 1) as nat);
    }
}

} // verus!
