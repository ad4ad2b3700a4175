use bytes::Bytes;
use lopdf::content::{Content, Operation as PdfOperation};
use lopdf::{Dictionary, Document as PdfDocument, Object, Stream, StringFormat};
use shiva::content::{FontEncoding, Operand, Operation};
use shiva::model::{Band, Document, Element, ImageData, ImageDimension, ListItem, ParserError};
use shiva::classic::is_classic;
use shiva::pdf::{append_images, is_shallow, Page, Subtype, Transformer, XObject};

fn name(s: &str) -> Object {
    Object::Name(s.as_bytes().to_vec())
}

fn literal(s: &[u8]) -> Object {
    Object::String(s.to_vec(), StringFormat::Literal)
}

fn dictionary(entries: Vec<(&str, Object)>) -> Dictionary {
    let mut d = Dictionary::new();
    for (key, value) in entries {
        d.set(key, value);
    }
    d
}

fn text(s: &str) -> Element {
    Element::Text { text: s.to_string(), size: 8 }
}

fn image(data: &[u8], name: &str) -> Element {
    Element::Image(ImageData::new(
        Bytes::from(data.to_vec()),
        format!("PDF Image {}", name),
        "PDF Image".to_string(),
        "png".to_string(),
        "center".to_string(),
        ImageDimension::default(),
    ))
}

struct PageParts {
    content: Vec<PdfOperation>,
    xobjects: Vec<(&'static str, Object)>,
}

fn file_of(pages: Vec<PageParts>) -> Bytes {
    let mut doc = PdfDocument::with_version("1.5");
    let pages_id = doc.new_object_id();
    let font_id = doc.add_object(dictionary(vec![
        ("Type", name("Font")),
        ("Subtype", name("Type1")),
        ("BaseFont", name("Courier")),
        ("Encoding", name("WinAnsiEncoding")),
    ]));
    let mut kids: Vec<Object> = Vec::new();
    for parts in pages {
        let mut listed = Dictionary::new();
        for (key, object) in parts.xobjects {
            let id = doc.add_object(object);
            listed.set(key, Object::Reference(id));
        }
        let resources = dictionary(vec![
            ("Font", Object::Dictionary(dictionary(vec![("F1", Object::Reference(font_id))]))),
            ("XObject", Object::Dictionary(listed)),
        ]);
        let content = Content { operations: parts.content };
        let content_id = doc.add_object(Stream::new(Dictionary::new(), content.encode().unwrap()));
        let page_id = doc.add_object(dictionary(vec![
            ("Type", name("Page")),
            ("Parent", Object::Reference(pages_id)),
            ("Contents", Object::Reference(content_id)),
            ("Resources", Object::Dictionary(resources)),
        ]));
        kids.push(Object::Reference(page_id));
    }
    let count = kids.len() as i64;
    doc.objects.insert(
        pages_id,
        Object::Dictionary(dictionary(vec![
            ("Type", name("Pages")),
            ("Kids", Object::Array(kids)),
            ("Count", Object::Integer(count)),
        ])),
    );
    let catalog_id = doc.add_object(dictionary(vec![
        ("Type", name("Catalog")),
        ("Pages", Object::Reference(pages_id)),
    ]));
    doc.trailer.set("Root", Object::Reference(catalog_id));
    let mut data: Vec<u8> = Vec::new();
    doc.reference_table.cross_reference_type = lopdf::xref::XrefType::CrossReferenceTable;
    doc.save_to(&mut data).unwrap();
    Bytes::from(data)
}

fn image_stream(data: &[u8]) -> Object {
    Object::Stream(Stream::new(
        dictionary(vec![
            ("Type", name("XObject")),
            ("Subtype", name("Image")),
            ("Width", Object::Integer(1)),
            ("Height", Object::Integer(1)),
        ]),
        data.to_vec(),
    ))
}

fn hello_page() -> Vec<PdfOperation> {
    vec![
        PdfOperation::new("BT", vec![]),
        PdfOperation::new("Tf", vec![name("F1"), Object::Integer(12)]),
        PdfOperation::new(
            "Tm",
            vec![
                Object::Integer(1),
                Object::Integer(0),
                Object::Integer(0),
                Object::Integer(1),
                Object::Integer(50),
                Object::Integer(700),
            ],
        ),
        PdfOperation::new("Tj", vec![literal(b"Hello")]),
        PdfOperation::new("ET", vec![]),
    ]
}

fn body(document: &Document) -> &Vec<Element> {
    document.get_elements_by_band(Band::Body)
}

#[test]
fn a_page_with_text_is_read() {
    let file = file_of(vec![PageParts { content: hello_page(), xobjects: vec![] }]);
    let document = Transformer::parse(&file).unwrap();
    assert_eq!(body(&document), &vec![text("Hello\n")]);
    assert!(document.get_elements_by_band(Band::PageHeader).is_empty());
    assert!(document.get_elements_by_band(Band::PageFooter).is_empty());
}

#[test]
fn one_image_among_the_resources_gives_one_image_element() {
    let data = [0x89u8, b'P', b'N', b'G', 1, 2, 3, 4, 5];
    let file = file_of(vec![PageParts { content: vec![], xobjects: vec![("Im1", image_stream(&data))] }]);
    let document = Transformer::parse(&file).unwrap();
    assert_eq!(body(&document).len(), 1);
    match &body(&document)[0] {
        Element::Image(found) => {
            assert_eq!(found.bytes().len(), data.len());
            assert_eq!(found.bytes().as_ref(), &data);
            assert_eq!(found.title(), "PDF Image Im1");
            assert_eq!(found.alt(), "PDF Image");
            assert_eq!(found.image_type(), "png");
            assert_eq!(found.align(), "center");
            assert_eq!(found.size(), &ImageDimension::default());
        }
        other => panic!("not an image: {:?}", other),
    }
}

#[test]
fn images_come_before_the_text_of_their_page() {
    let form = Object::Stream(Stream::new(
        dictionary(vec![("Type", name("XObject")), ("Subtype", name("Form"))]),
        b"q Q".to_vec(),
    ));
    let bare = Object::Stream(Stream::new(Dictionary::new(), b"zz".to_vec()));
    let no_stream = Object::Dictionary(dictionary(vec![("Subtype", name("Image"))]));
    let file = file_of(vec![
        PageParts {
            content: hello_page(),
            xobjects: vec![
                ("A", image_stream(b"first")),
                ("B", form),
                ("C", bare),
                ("D", no_stream),
                ("E", image_stream(b"second!")),
            ],
        },
        PageParts { content: hello_page(), xobjects: vec![("A", image_stream(b"third"))] },
    ]);
    let document = Transformer::parse(&file).unwrap();
    assert_eq!(
        body(&document),
        &vec![
            image(b"first", "A"),
            image(b"second!", "E"),
            text("Hello\n"),
            image(b"third", "A"),
            text("Hello\n"),
        ]
    );
}

#[test]
fn pages_go_into_one_document() {
    let mut second = hello_page();
    second.insert(2, PdfOperation::new("Tj", vec![literal(b"again")]));
    let mut third = hello_page();
    third.push(PdfOperation::new("Tj", vec![literal(&[1])]));
    let file = file_of(vec![
        PageParts { content: hello_page(), xobjects: vec![] },
        PageParts { content: second, xobjects: vec![] },
        PageParts { content: third, xobjects: vec![] },
    ]);
    let document = Transformer::parse(&file).unwrap();
    assert_eq!(
        body(&document),
        &vec![
            text("Hello\n"),
            Element::Paragraph { elements: vec![text("again"), text("Hello\n")] },
            Element::List { elements: vec![ListItem { element: text("Hello\n") }], numbered: false },
        ]
    );
}

#[test]
fn parsing_is_deterministic() {
    let file = file_of(vec![PageParts {
        content: hello_page(),
        xobjects: vec![("Im1", image_stream(b"data"))],
    }]);
    let first = Transformer::parse(&file).unwrap();
    let second = Transformer::parse(&file).unwrap();
    assert_eq!(first, second);
}

#[test]
fn arrays_with_spacing_are_read_from_a_file() {
    let content = vec![
        PdfOperation::new("BT", vec![]),
        PdfOperation::new("Tf", vec![name("F1"), Object::Integer(12)]),
        PdfOperation::new(
            "TJ",
            vec![Object::Array(vec![
                literal(b"Hel"),
                Object::Integer(-20),
                literal(b"lo"),
                Object::Integer(-300),
                literal(&[0xe9]),
                Object::Real(-500.5),
            ])],
        ),
        PdfOperation::new("ET", vec![]),
    ];
    let file = file_of(vec![PageParts { content, xobjects: vec![] }]);
    let document = Transformer::parse(&file).unwrap();
    assert_eq!(body(&document), &vec![text("Hello \u{e9}\n")]);
}

#[test]
fn an_image_with_an_unreadable_subtype_fails_the_file() {
    let odd = Object::Stream(Stream::new(
        dictionary(vec![("Subtype", Object::Integer(3))]),
        b"zz".to_vec(),
    ));
    let file = file_of(vec![PageParts { content: hello_page(), xobjects: vec![("X", odd)] }]);
    assert_eq!(Transformer::parse(&file), Err(ParserError::WrongType));
}

#[test]
fn a_font_without_a_name_fails_the_file() {
    let content = vec![PdfOperation::new("Tf", vec![])];
    let file = file_of(vec![PageParts { content, xobjects: vec![] }]);
    assert_eq!(Transformer::parse(&file), Err(ParserError::Common));
    let content = vec![PdfOperation::new("Tf", vec![Object::Integer(1)])];
    let file = file_of(vec![PageParts { content, xobjects: vec![] }]);
    assert_eq!(Transformer::parse(&file), Err(ParserError::WrongType));
}

#[test]
fn bytes_that_are_no_file_are_malformed() {
    assert_eq!(Transformer::parse(&Bytes::from_static(b"")), Err(ParserError::Malformed));
    assert_eq!(Transformer::parse(&Bytes::from_static(b"plain text")), Err(ParserError::Malformed));
}

#[test]
fn a_file_without_pages_is_an_empty_document() {
    let file = file_of(vec![]);
    let document = Transformer::parse(&file).unwrap();
    assert!(body(&document).is_empty());
}

fn xobject(name: &str, subtype: Subtype, content: &[u8]) -> XObject {
    XObject { name: name.as_bytes().to_vec(), subtype, content: content.to_vec() }
}

#[test]
fn images_are_appended_in_the_order_of_the_resources() {
    let xobjects = vec![
        xobject("a", Subtype::Name("Image".to_string()), b"1"),
        xobject("b", Subtype::Missing, b"2"),
        xobject("c", Subtype::Name("Form".to_string()), b"3"),
        xobject("d", Subtype::Name("image".to_string()), b"4"),
        xobject("e", Subtype::Name("Image".to_string()), b""),
    ];
    let mut elements = vec![text("before")];
    assert_eq!(append_images(&xobjects, &mut elements), Ok(()));
    assert_eq!(elements, vec![text("before"), image(b"1", "a"), image(b"", "e")]);
}

#[test]
fn an_image_title_survives_a_name_that_is_no_utf8() {
    let xobjects = vec![XObject {
        name: vec![b'I', 0xff, b'm'],
        subtype: Subtype::Name("Image".to_string()),
        content: vec![7],
    }];
    let mut elements = vec![];
    assert_eq!(append_images(&xobjects, &mut elements), Ok(()));
    assert_eq!(elements, vec![image(&[7], "I\u{fffd}m")]);
}

#[test]
fn an_unreadable_subtype_ends_the_scan() {
    let xobjects = vec![
        xobject("a", Subtype::Name("Image".to_string()), b"1"),
        xobject("b", Subtype::Unreadable, b"2"),
        xobject("c", Subtype::Name("Image".to_string()), b"3"),
    ];
    let mut elements = vec![];
    assert_eq!(append_images(&xobjects, &mut elements), Err(ParserError::WrongType));
}

fn page(xobjects: Vec<XObject>, operations: Option<Vec<Operation>>) -> Page {
    Page {
        xobjects,
        fonts: vec![FontEncoding { name: b"F1".to_vec(), encoding: "WinAnsiEncoding".to_string() }],
        operations,
    }
}

fn show(s: &[u8]) -> Operation {
    Operation { operator: "Tj".to_string(), operands: vec![Operand::Text(s.to_vec())] }
}

#[test]
fn pages_are_assembled_in_their_order() {
    let pages = vec![
        page(vec![xobject("a", Subtype::Name("Image".to_string()), b"1")], Some(vec![show(b"one")])),
        page(vec![], Some(vec![show(b"two")])),
        page(vec![], Some(vec![])),
    ];
    let document = Transformer::parse_pages(&pages).unwrap();
    assert_eq!(body(&document), &vec![image(b"1", "a"), text("one"), text("two")]);
}

#[test]
fn a_page_without_readable_content_fails() {
    let pages = vec![page(vec![], Some(vec![show(b"one")])), page(vec![], None)];
    assert_eq!(Transformer::parse_pages(&pages), Err(ParserError::Malformed));
    let pages = vec![page(vec![xobject("a", Subtype::Unreadable, b"")], None)];
    assert_eq!(Transformer::parse_pages(&pages), Err(ParserError::WrongType));
}

fn raw_page_file(content: Vec<u8>, own_parent: bool) -> Bytes {
    let mut doc = PdfDocument::with_version("1.5");
    let pages_id = doc.new_object_id();
    let content_id = doc.add_object(Stream::new(Dictionary::new(), content));
    let page_id = doc.add_object(dictionary(vec![
        ("Type", name("Page")),
        ("Parent", Object::Reference(pages_id)),
        ("Contents", Object::Reference(content_id)),
        ("Resources", Object::Dictionary(Dictionary::new())),
    ]));
    let mut pages = dictionary(vec![
        ("Type", name("Pages")),
        ("Kids", Object::Array(vec![Object::Reference(page_id)])),
        ("Count", Object::Integer(1)),
    ]);
    if own_parent {
        pages.set("Parent", Object::Reference(pages_id));
    }
    doc.objects.insert(pages_id, Object::Dictionary(pages));
    let catalog_id = doc.add_object(dictionary(vec![
        ("Type", name("Catalog")),
        ("Pages", Object::Reference(pages_id)),
    ]));
    doc.trailer.set("Root", Object::Reference(catalog_id));
    let mut data: Vec<u8> = Vec::new();
    doc.reference_table.cross_reference_type = lopdf::xref::XrefType::CrossReferenceTable;
    doc.save_to(&mut data).unwrap();
    Bytes::from(data)
}

#[test]
fn a_page_tree_that_runs_in_a_circle_is_malformed() {
    let file = raw_page_file(b"BT (Hello) Tj ET".to_vec(), true);
    assert_eq!(Transformer::parse(&file), Err(ParserError::Malformed));
    let file = raw_page_file(b"BT (Hello) Tj ET".to_vec(), false);
    assert_eq!(body(&Transformer::parse(&file).unwrap()), &vec![text("Hello\n")]);
}

#[test]
fn content_that_is_nested_too_deep_is_not_decoded() {
    let mut content = vec![b'['; 100_000];
    content.extend_from_slice(b" TJ");
    assert_eq!(Transformer::parse(&raw_page_file(content, false)), Err(ParserError::Malformed));
    let mut content = vec![b'['; 64];
    content.extend_from_slice(b"(deep)");
    content.extend(vec![b']'; 64]);
    content.extend_from_slice(b" TJ");
    let document = Transformer::parse(&raw_page_file(content, false)).unwrap();
    assert_eq!(body(&document), &vec![text("deep")]);
    let mut content = vec![b'['; 65];
    content.extend(vec![b']'; 65]);
    content.extend_from_slice(b" TJ");
    assert_eq!(Transformer::parse(&raw_page_file(content, false)), Err(ParserError::Malformed));
}

#[test]
fn nesting_is_counted_outside_strings_and_comments() {
    assert!(is_shallow(b""));
    assert!(is_shallow(b"BT /F1 12 Tf [(Hello) -20 (World)] TJ ET"));
    let many: Vec<u8> = b"[(a[b) 1] TJ ".repeat(1000);
    assert!(is_shallow(&many));
    let citations: Vec<u8> = b"(see [1] and <2>) Tj ".repeat(1000);
    assert!(is_shallow(&citations));
    assert!(is_shallow(&[b'['; 64]));
    assert!(!is_shallow(&[b'['; 65]));
    assert!(!is_shallow(&[b'<'; 65]));
    assert!(is_shallow(&b"<<>>".repeat(1000)));
    assert!(!is_shallow(&b"[(])".repeat(65)));
    assert!(!is_shallow(&b"[(\\))".repeat(65)));
    assert!(is_shallow(&b"[(\\\\)]".repeat(1000)));
    assert!(!is_shallow(&b"[%]\n".repeat(65)));
    assert!(is_shallow(&b"[%[\n]".repeat(1000)));
    let mut nested = vec![b'('; 1];
    nested.extend(b"[(])".repeat(200));
    nested.push(b')');
    assert!(is_shallow(&nested));
}

#[test]
fn a_predictor_with_rows_beyond_bounds_is_not_undone() {
    let mut doc = PdfDocument::with_version("1.5");
    let pages_id = doc.new_object_id();
    let parameters = dictionary(vec![
        ("Predictor", Object::Integer(12)),
        ("Columns", Object::Integer(i64::MAX)),
        ("Colors", Object::Integer(i64::MAX)),
    ]);
    let content_id = doc.add_object(Stream::new(
        dictionary(vec![("Filter", name("FlateDecode")), ("DecodeParms", Object::Dictionary(parameters))]),
        vec![0x78, 0x9c, 0x03, 0x00, 0x00, 0x00, 0x00, 0x01],
    ));
    let page_id = doc.add_object(dictionary(vec![
        ("Type", name("Page")),
        ("Parent", Object::Reference(pages_id)),
        ("Contents", Object::Reference(content_id)),
    ]));
    doc.objects.insert(
        pages_id,
        Object::Dictionary(dictionary(vec![
            ("Type", name("Pages")),
            ("Kids", Object::Array(vec![Object::Reference(page_id)])),
            ("Count", Object::Integer(1)),
        ])),
    );
    let catalog_id = doc.add_object(dictionary(vec![
        ("Type", name("Catalog")),
        ("Pages", Object::Reference(pages_id)),
    ]));
    doc.trailer.set("Root", Object::Reference(catalog_id));
    let mut data: Vec<u8> = Vec::new();
    doc.reference_table.cross_reference_type = lopdf::xref::XrefType::CrossReferenceTable;
    doc.save_to(&mut data).unwrap();
    assert_eq!(Transformer::parse(&Bytes::from(data)), Err(ParserError::Malformed));
}

fn headed(rest: &[u8]) -> Vec<u8> {
    let mut data = b"%PDF-1.4\n".to_vec();
    data.extend_from_slice(rest);
    data
}

fn small_file(trailer_extra: &str) -> Vec<u8> {
    let head = "%PDF-1.4\n1 0 obj\n<</Type/Catalog>>\nendobj\n";
    let at = head.len();
    let extra = trailer_extra.replace("{at}", &at.to_string());
    format!(
        "{}xref\n0 2\n0000000000 65535 f \n0000000009 00000 n \ntrailer\n<</Size 2/Root 1 0 R{}>>\nstartxref\n{}\n%%EOF",
        head, extra, at
    )
    .into_bytes()
}

#[test]
fn a_file_with_its_table_written_out_is_classic() {
    let file = file_of(vec![PageParts {
        content: hello_page(),
        xobjects: vec![("Im1", image_stream(b"\x00\x01binary[(<"))],
    }]);
    assert!(is_classic(&file));
    assert!(is_classic(&small_file("")));
    assert!(Transformer::parse(&Bytes::from(small_file(""))).is_ok());
}

#[test]
fn a_file_must_start_as_a_file() {
    assert!(!is_classic(b""));
    assert!(!is_classic(b"hello"));
    assert!(!is_classic(b" %PDF-1.4\n"));
    assert!(is_classic(b"%PDF-"));
    assert!(is_classic(b"%PDF-1.4\n"));
}

#[test]
fn a_section_that_names_itself_as_the_earlier_one_is_not_read() {
    let file = small_file("/Prev {at}");
    assert!(!is_classic(&file));
    assert_eq!(Transformer::parse(&Bytes::from(file)), Err(ParserError::Malformed));
}

#[test]
fn names_are_known_through_their_spelling() {
    assert!(!is_classic(&headed(b"<</Type/ObjStm>>")));
    assert!(!is_classic(&headed(b"<</Type/Obj#53tm>>")));
    assert!(!is_classic(&headed(b"<</Type/#4f#62#6A#53#74#6d>>")));
    assert!(!is_classic(&headed(b"<</Type/ObjStm")));
    assert!(!is_classic(&headed(b"<</Type/ObjStm#zz>>")));
    assert!(!is_classic(&headed(b"<</Type/ObjStm#41>>")));
    assert!(is_classic(&headed(b"<</Type/ObjStmt>>")));
    assert!(is_classic(&headed(b"<</Type/Obj#5Gtm>>")));
    assert!(is_classic(&headed(b"<</Type/Obj#5")));
    assert!(is_classic(&headed(b"<</Type(ObjStm) ObjStm>>")));
}

#[test]
fn a_trailer_names_no_earlier_section() {
    assert!(is_classic(&headed(b"trailer\n<</Size 2/Root 1 0 R>>")));
    assert!(!is_classic(&headed(b"trailer\n<</Size 2/Prev 5>>")));
    assert!(!is_classic(&headed(b"trailer<</P#72ev 5>>")));
    assert!(!is_classic(&headed(b"trailer <</A(x)/Prev 5>>")));
    assert!(!is_classic(&headed(b"trailer <</A<</Prev 5>>>>")));
    assert!(!is_classic(&headed(b"trailer %/Prev\n<<>>")));
    assert!(is_classic(&headed(b"trailer\n<</Preview 5>>")));
    assert!(is_classic(&headed(b"trailer\n<</Size 2>>\n<</Prev 5>>")));
    assert!(is_classic(&headed(b"1 0 obj\n<</Prev 5 0 R/Next 6 0 R>>\nendobj\ntrailer\n<</Size 2>>")));
    assert!(is_classic(&headed(b"trailer /Prev")));
}

#[test]
fn a_length_is_said_in_place() {
    assert!(is_classic(&headed(b"<</Length 45>>")));
    assert!(is_classic(&headed(b"<</Length 45/Filter/FlateDecode>>")));
    assert!(is_classic(&headed(b"<</Length 45 /Filter /FlateDecode>>")));
    assert!(is_classic(&headed(b"<</Length/Name>>")));
    assert!(is_classic(&headed(b"<</Length")));
    assert!(is_classic(&headed(b"<</Length1 45 0>>")));
    assert!(!is_classic(&headed(b"<</Length 45 0 R>>")));
    assert!(!is_classic(&headed(b"<</Length\n45\r\n0 R>>")));
    assert!(!is_classic(&headed(b"<</Length 45 0>>")));
    assert!(!is_classic(&headed(b"<</Le#6Egth 45 0 R>>")));
    assert!(!is_classic(&headed(b"<</Length %c\n45>>")));
    assert!(!is_classic(&headed(b"<</Length 45%c\n0 R>>")));
}

#[test]
fn a_stream_whose_length_is_its_own_object_is_not_read() {
    let head = "%PDF-1.4\n1 0 obj\n<</Length 1 0 R>>stream\nabc\nendstream\nendobj\n";
    let file = format!(
        "{}xref\n0 2\n0000000000 65535 f \n0000000009 00000 n \ntrailer\n<</Size 2/Root 1 0 R>>\nstartxref\n{}\n%%EOF",
        head,
        head.len()
    );
    assert_eq!(Transformer::parse(&Bytes::from(file)), Err(ParserError::Malformed));
}

#[test]
fn the_table_stands_where_the_file_says() {
    assert!(is_classic(&headed(b"xref\nstartxref\n9\n%%EOF")));
    assert!(is_classic(&headed(b"xref\nstartxref\r\n0009\n%%EOF")));
    assert!(!is_classic(&headed(b"xref\nstartxref\n10\n%%EOF")));
    assert!(!is_classic(&headed(b"xref\nstartxref\n0\n%%EOF")));
    assert!(!is_classic(&headed(b"xref\nstartxref\n+9\n%%EOF")));
    assert!(!is_classic(&headed(b"xref\nstartxref\n-9\n%%EOF")));
    assert!(is_classic(&headed(b"xref\nstartxref\n99999\n%%EOF")));
    assert!(is_classic(&headed(b"xref\nstartxref\n99999999999999999999999999\n%%EOF")));
    assert!(is_classic(&headed(b"xref\nstartxref 9\n%%EOF")));
    assert!(is_classic(&headed(b"xref\nstartxref\n\n%%EOF")));
    assert!(is_classic(&headed(b"xref\nstartxref")));
    assert!(!is_classic(&headed(b"1 0 obj\n<<>>\nstartxref\n9\n%%EOF")));
}

#[test]
fn a_table_in_a_stream_is_not_read() {
    let mut doc = PdfDocument::with_version("1.5");
    let id = doc.add_object(Dictionary::new());
    doc.trailer.set("Root", Object::Reference(id));
    let mut written: Vec<u8> = Vec::new();
    doc.save_to(&mut written).unwrap();
    assert!(!is_classic(&written));
    assert_eq!(Transformer::parse(&Bytes::from(written)), Err(ParserError::Malformed));
    let head = "%PDF-1.5\n1 0 obj\n<</Type/Catalog>>\nendobj\n";
    let file = format!(
        "{}2 0 obj\n<</Type/XRef/Size 3/W[0 0 0]/Index[0 9000000000000000000]/Root 1 0 R/Length 0>>stream\n\nendstream\nendobj\nstartxref\n{}\n%%EOF",
        head,
        head.len()
    );
    assert!(!is_classic(file.as_bytes()));
    assert_eq!(Transformer::parse(&Bytes::from(file)), Err(ParserError::Malformed));
}

#[test]
fn the_numbers_of_a_section_are_small() {
    assert!(is_classic(&headed(b"xref\n0 2\n")));
    assert!(is_classic(&headed(b"xref\n2147483647 2\n")));
    assert!(!is_classic(&headed(b"xref\n2147483648 2\n")));
    assert!(!is_classic(&headed(b"xref\r4294967295 1\n")));
    assert!(!is_classic(&headed(b"xref\n18446744073709551615 2\n")));
    assert!(!is_classic(&headed(b"xref\n00000000000000000000000000000000000000099999999999 2\n")));
    assert!(is_classic(&headed(b"xref\n000000000000000000000000000000000000000999 2\n")));
    assert!(is_classic(&headed(b"(D:20240101120000 )")));
    assert!(is_classic(&headed(b"xref\n4294967295\n")));
    let file = small_file("").iter().map(|b| *b).collect::<Vec<u8>>();
    let text = String::from_utf8(file).unwrap().replace("xref\n0 2\n", "xref\n4294967295 2\n");
    assert_eq!(Transformer::parse(&Bytes::from(text)), Err(ParserError::Malformed));
}

#[test]
fn objects_are_not_nested_beyond_the_limit() {
    let mut deep = b"1 0 obj".to_vec();
    deep.extend(b"[".repeat(64));
    assert!(is_classic(&headed(&deep)));
    deep.push(b'[');
    assert!(!is_classic(&headed(&deep)));
    let mut open = b"trailer\n".to_vec();
    open.extend(b"<<".repeat(32));
    assert!(is_classic(&headed(&open)));
    open.push(b'<');
    assert!(!is_classic(&headed(&open)));
    assert!(is_classic(&headed(&b"[".repeat(1000))));
    let mut text = b"1 0 obj(".to_vec();
    text.extend(b"[".repeat(1000));
    assert!(is_classic(&headed(&text)));
    let mut closed = b"1 0 obj<<>>stream\n".to_vec();
    closed.extend(b"[".repeat(1000));
    assert!(is_classic(&headed(&closed)));
    let mut many = Vec::new();
    for _ in 0..1000 {
        many.extend_from_slice(b"1 0 obj[[[]]]endobj\n");
    }
    assert!(is_classic(&headed(&many)));
    let mut hidden = b"1 0 obj".to_vec();
    hidden.extend(b"[(])".repeat(65));
    assert!(!is_classic(&headed(&hidden)));
    let mut number = b"1 0 obj 5 ".to_vec();
    number.extend(b"[".repeat(1000));
    assert!(is_classic(&headed(&number)));
    let mut spaced = b"1 0 obj \t\r\n\0\x0c%[[[\n".to_vec();
    spaced.extend(b"[".repeat(64));
    assert!(is_classic(&headed(&spaced)));
    spaced.push(b'[');
    assert!(!is_classic(&headed(&spaced)));
    assert!(is_classic(&headed(&b"obj%".repeat(1000))));
}

#[test]
fn a_file_at_the_limits_is_read() {
    let mut head = b"%PDF-1.4\n1 0 obj\n<</Type/Catalog>>\nendobj\n".to_vec();
    let second = head.len();
    head.extend_from_slice(b"2 0 obj\n");
    head.extend(b"[".repeat(64));
    head.extend(b"(".repeat(90));
    head.extend(b")".repeat(90));
    head.extend(b"]".repeat(64));
    head.extend_from_slice(b"\nendobj\n");
    let mut file = head.clone();
    file.extend_from_slice(
        format!(
            "xref\n0 3\n0000000000 65535 f \n0000000009 00000 n \n{:010} 00000 n \ntrailer\n<</Size 3/Root 1 0 R>>\nstartxref\n{}\n%%EOF",
            second,
            head.len()
        )
        .as_bytes(),
    );
    assert!(is_classic(&file));
    let read = lopdf::Document::load_mem(&file).unwrap();
    assert!(read.get_object((2, 0)).unwrap().as_array().is_ok());
    assert_eq!(Transformer::parse(&Bytes::from(file)).unwrap(), Document::new(vec![]));
}

#[test]
fn an_object_nested_without_end_is_not_read() {
    let mut head = b"%PDF-1.4\n1 0 obj\n".to_vec();
    head.extend(b"[".repeat(200000));
    head.extend(b"]".repeat(200000));
    head.extend_from_slice(b"\nendobj\n");
    let mut file = head.clone();
    file.extend_from_slice(
        format!(
            "xref\n0 2\n0000000000 65535 f \n0000000009 00000 n \ntrailer\n<</Size 2/Root 1 0 R>>\nstartxref\n{}\n%%EOF",
            head.len()
        )
        .as_bytes(),
    );
    assert_eq!(Transformer::parse(&Bytes::from(file)), Err(ParserError::Malformed));
}
