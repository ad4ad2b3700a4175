use shiva::model::{Band, Document, Element, ListItem};

fn text(s: &str, size: u8) -> Element {
    Element::Text { text: s.to_string(), size }
}

#[test]
fn new_document_has_only_a_body() {
    let d = Document::new(vec![text("a", 8), text("b", 8)]);
    assert_eq!(d.get_elements_by_band(Band::PageHeader), &Vec::<Element>::new());
    assert_eq!(d.get_elements_by_band(Band::Body), &vec![text("a", 8), text("b", 8)]);
    assert_eq!(d.get_elements_by_band(Band::PageFooter), &Vec::<Element>::new());
}

#[test]
fn bands_come_in_reading_order() {
    assert_eq!(Document::bands(), vec![Band::PageHeader, Band::Body, Band::PageFooter]);
}

#[test]
fn header_and_footer_are_replaced_independently() {
    let mut d = Document::new(vec![text("body", 8)]);
    d.set_page_header(vec![text("header", 10)]);
    assert_eq!(d.get_elements_by_band(Band::PageHeader), &vec![text("header", 10)]);
    assert_eq!(d.get_elements_by_band(Band::Body), &vec![text("body", 8)]);
    assert_eq!(d.get_elements_by_band(Band::PageFooter), &Vec::<Element>::new());
    d.set_page_footer(vec![text("footer", 10)]);
    assert_eq!(d.get_elements_by_band(Band::PageHeader), &vec![text("header", 10)]);
    assert_eq!(d.get_elements_by_band(Band::Body), &vec![text("body", 8)]);
    assert_eq!(d.get_elements_by_band(Band::PageFooter), &vec![text("footer", 10)]);
    d.set_page_header(vec![]);
    assert_eq!(d.get_elements_by_band(Band::PageHeader), &Vec::<Element>::new());
    assert_eq!(d.get_elements_by_band(Band::PageFooter), &vec![text("footer", 10)]);
}

#[test]
fn a_list_item_wraps_one_element() {
    let item = ListItem { element: text("x", 8) };
    let list = Element::List { elements: vec![item], numbered: true };
    match list {
        Element::List { elements, numbered } => {
            assert!(numbered);
            assert_eq!(elements.len(), 1);
            assert_eq!(elements[0].element, text("x", 8));
        }
        _ => panic!("not a list"),
    }
}

#[test]
fn a_copy_holds_the_same_tree() {
    let image = shiva::model::ImageData::new(
        bytes::Bytes::from(vec![1u8, 2, 3]),
        "t".to_string(),
        "a".to_string(),
        "png".to_string(),
        "center".to_string(),
        shiva::model::ImageDimension { width: Some("1".to_string()), height: None },
    );
    let table = Element::Table {
        headers: vec![ListItem { element: text("h", 8) }],
        rows: vec![
            shiva::model::TableRow { cells: vec![ListItem { element: text("c", 8) }] },
            shiva::model::TableRow { cells: vec![] },
        ],
    };
    let tree = Element::Paragraph {
        elements: vec![
            text("a", 9),
            Element::Header { level: 2, text: "h".to_string() },
            Element::List {
                elements: vec![ListItem { element: Element::Image(image) }, ListItem { element: table }],
                numbered: true,
            },
            Element::Hyperlink {
                title: "t".to_string(),
                url: "u".to_string(),
                alt: "a".to_string(),
                size: 7,
            },
        ],
    };
    let copy = tree.clone();
    assert_eq!(copy, tree);
    let mut document = Document::new(vec![tree]);
    document.set_page_header(vec![text("head", 8)]);
    document.set_page_footer(vec![text("foot", 8)]);
    let second = document.clone();
    assert_eq!(second, document);
    assert_eq!(second.get_elements_by_band(Band::Body), &vec![copy]);
}
