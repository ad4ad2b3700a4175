use shiva::content::{find_font_encoding, interpret_page, FontEncoding, Operand, Operation};
use shiva::model::{Element, ListItem, ParserError};

fn op(operator: &str, operands: Vec<Operand>) -> Operation {
    Operation { operator: operator.to_string(), operands }
}

fn show(text: &[u8]) -> Operation {
    op("Tj", vec![Operand::Text(text.to_vec())])
}

fn set_font(name: &str) -> Operation {
    op("Tf", vec![Operand::Name(name.as_bytes().to_vec()), Operand::Integer(12)])
}

fn font(name: &str, encoding: &str) -> FontEncoding {
    FontEncoding { name: name.as_bytes().to_vec(), encoding: encoding.to_string() }
}

fn text(s: &str) -> Element {
    Element::Text { text: s.to_string(), size: 8 }
}

fn item(s: &str) -> ListItem {
    ListItem { element: text(s) }
}

fn paragraph(texts: &[&str]) -> Element {
    Element::Paragraph { elements: texts.iter().map(|s| text(s)).collect() }
}

fn list(texts: &[&str], numbered: bool) -> Element {
    Element::List { elements: texts.iter().map(|s| item(s)).collect(), numbered }
}

fn run(fonts: &[FontEncoding], operations: Vec<Operation>, start: Vec<Element>) -> Result<Vec<Element>, ParserError> {
    let fonts: Vec<FontEncoding> = fonts
        .iter()
        .map(|f| FontEncoding { name: f.name.clone(), encoding: f.encoding.clone() })
        .collect();
    let mut elements = start;
    interpret_page(&fonts, &operations, &mut elements)?;
    Ok(elements)
}

#[test]
fn text_runs_are_grouped_into_one_paragraph() {
    let fonts = [font("f1", "WinAnsiEncoding")];
    let operations = vec![set_font("f1"), op("Tm", vec![]), show(b"abc"), op("Tm", vec![]), show(b"def")];
    assert_eq!(run(&fonts, operations, vec![]), Ok(vec![paragraph(&["abc", "def"])]));
}

#[test]
fn a_mark_closes_a_list_item() {
    let operations = vec![show(b"Item A"), show(&[1])];
    assert_eq!(run(&[], operations, vec![]), Ok(vec![list(&["Item A"], false)]));
}

#[test]
fn a_second_item_goes_to_the_same_list() {
    let operations = vec![
        show(b"Item A"),
        show(&[1]),
        op("Tm", vec![]),
        show(b"Item B"),
        show(&[1]),
    ];
    assert_eq!(run(&[], operations, vec![]), Ok(vec![list(&["Item A", "Item B"], false)]));
}

#[test]
fn a_list_keeps_its_numbering() {
    let start = vec![list(&["one"], true)];
    assert_eq!(run(&[], vec![show(b"two"), show(&[1])], start), Ok(vec![list(&["one", "two"], true)]));
}

#[test]
fn a_mark_after_a_paragraph_opens_a_list_behind_it() {
    let operations = vec![show(b"intro"), op("Tm", vec![]), show(b"first"), show(&[1])];
    assert_eq!(
        run(&[], operations, vec![]),
        Ok(vec![paragraph(&["intro"]), list(&["first"], false)])
    );
}

#[test]
fn a_mark_after_any_other_element_opens_a_list() {
    let start = vec![text("alone")];
    assert_eq!(
        run(&[], vec![show(b"x"), show(&[1])], start),
        Ok(vec![text("alone"), list(&["x"], false)])
    );
}

#[test]
fn a_mark_with_nothing_pending_makes_an_empty_item() {
    assert_eq!(run(&[], vec![show(&[1])], vec![]), Ok(vec![list(&[""], false)]));
}

#[test]
fn a_mark_is_no_text() {
    let fonts = [font("F", "Custom")];
    let operations = vec![set_font("F"), show(b"a"), show(&[1]), show(&[1, 1]), show(&[2])];
    assert_eq!(
        run(&fonts, operations, vec![]),
        Ok(vec![list(&["a", "\u{1}\u{1}\u{2}"], false)])
    );
}

#[test]
fn a_text_matrix_without_pending_text_changes_nothing() {
    let operations = vec![op("Tm", vec![]), op("Tm", vec![])];
    assert_eq!(run(&[], operations, vec![]), Ok(vec![]));
    let start = vec![list(&["a"], false)];
    assert_eq!(run(&[], vec![op("Tm", vec![])], start), Ok(vec![list(&["a"], false)]));
}

#[test]
fn a_text_matrix_after_a_list_opens_a_paragraph() {
    let start = vec![list(&["a"], false)];
    let operations = vec![show(b"x"), op("Tm", vec![]), show(b"y"), op("Tm", vec![])];
    assert_eq!(
        run(&[], operations, start),
        Ok(vec![list(&["a"], false), paragraph(&["x", "y"])])
    );
}

#[test]
fn end_of_text_closes_the_line_once() {
    let operations = vec![show(b"a"), op("ET", vec![]), op("ET", vec![]), op("Tm", vec![])];
    assert_eq!(run(&[], operations, vec![]), Ok(vec![paragraph(&["a\n"])]));
    let operations = vec![op("ET", vec![]), op("Tm", vec![])];
    assert_eq!(run(&[], operations, vec![]), Ok(vec![paragraph(&["\n"])]));
}

#[test]
fn end_of_page_puts_pending_text_where_it_belongs() {
    assert_eq!(run(&[], vec![show(b"x")], vec![]), Ok(vec![text("x")]));
    assert_eq!(
        run(&[], vec![show(b"x")], vec![paragraph(&["p"])]),
        Ok(vec![paragraph(&["p", "x"])])
    );
    assert_eq!(
        run(&[], vec![show(b"x")], vec![list(&["i"], true)]),
        Ok(vec![list(&["i", "x"], true)])
    );
    assert_eq!(
        run(&[], vec![show(b"x")], vec![text("t")]),
        Ok(vec![text("t"), text("x")])
    );
    assert_eq!(run(&[], vec![], vec![text("t")]), Ok(vec![text("t")]));
}

#[test]
fn arrays_are_shown_operand_by_operand() {
    let array = Operand::Array(vec![
        Operand::Text(b"Hel".to_vec()),
        Operand::Integer(-20),
        Operand::Text(b"lo".to_vec()),
        Operand::Integer(-101),
        Operand::Text(b"world".to_vec()),
        Operand::Integer(-100),
        Operand::Other,
        Operand::Name(b"n".to_vec()),
        Operand::Array(vec![Operand::Text(b"!".to_vec())]),
    ]);
    let operations = vec![op("TJ", vec![array]), op("Tm", vec![])];
    assert_eq!(run(&[], operations, vec![]), Ok(vec![paragraph(&["Hello world!"])]));
}

#[test]
fn a_wide_gap_outside_an_array_is_a_blank_too() {
    let operations = vec![op("Tj", vec![Operand::Text(b"a".to_vec()), Operand::Integer(-500), Operand::Text(b"b".to_vec())])];
    assert_eq!(run(&[], operations, vec![]), Ok(vec![text("a b")]));
}

#[test]
fn the_font_in_use_decides_the_encoding() {
    let fonts = [font("F1", "WinAnsiEncoding"), font("F2", "MacRomanEncoding")];
    let operations = vec![
        show(&[0xe9]),
        set_font("F1"),
        show(&[0xe9]),
        set_font("F2"),
        show(&[0x8e]),
        set_font("F3"),
        show(&[0xe9]),
    ];
    assert_eq!(run(&fonts, operations, vec![]), Ok(vec![text("\u{d8}\u{e9}\u{e9}\u{d8}")]));
}

#[test]
fn fonts_are_found_by_name() {
    let fonts = vec![font("F1", "A"), font("F2", "B"), font("F1", "C")];
    assert_eq!(find_font_encoding(&fonts, &b"F1".to_vec()), Some("A".to_string()));
    assert_eq!(find_font_encoding(&fonts, &b"F2".to_vec()), Some("B".to_string()));
    assert_eq!(find_font_encoding(&fonts, &b"F".to_vec()), None);
    assert_eq!(find_font_encoding(&vec![], &b"F1".to_vec()), None);
}

#[test]
fn setting_a_font_needs_a_name() {
    assert_eq!(run(&[], vec![op("Tf", vec![])], vec![]), Err(ParserError::Common));
    assert_eq!(
        run(&[], vec![op("Tf", vec![Operand::Integer(12)])], vec![]),
        Err(ParserError::WrongType)
    );
    assert_eq!(
        run(&[], vec![show(b"a"), op("Tf", vec![Operand::Text(b"F1".to_vec())]), show(b"b")], vec![]),
        Err(ParserError::WrongType)
    );
}

#[test]
fn other_operators_are_passed_over() {
    let operations = vec![
        op("BT", vec![]),
        op("Td", vec![Operand::Integer(1), Operand::Integer(2)]),
        show(b"a"),
        op("tj", vec![Operand::Text(b"no".to_vec())]),
        op("re", vec![Operand::Other]),
        op("", vec![]),
    ];
    assert_eq!(run(&[], operations, vec![]), Ok(vec![text("a")]));
}
