use bytes::Bytes;
use comemo::Prehashed;
use shiva::base64::decode;
use shiva::markup::{finish, lower, Typeset};
use shiva::model::{Document, Element, GenerateError, ImageData, ImageDimension, ListItem, TableRow};
use shiva::text::Transformer;
use std::collections::HashMap;
use typst::diag::{FileError, FileResult};
use typst::eval::Tracer;
use typst::foundations::{Bytes as TypstBytes, Datetime, Smart};
use typst::syntax::{FileId, Source};
use typst::text::{Font, FontBook};
use typst::{Library, World};

const PIXEL: &str = "iVBORw0KGgoAAAANSUhEUgAAAAEAAAABCAYAAAAfFcSJAAAADUlEQVR42mP8/5+hHgAHggJ/PchI7wAAAABJRU5ErkJggg==";

fn text(s: &str) -> Element {
    Element::Text { text: s.to_string(), size: 8 }
}

fn item(s: &str) -> ListItem {
    ListItem { element: text(s) }
}

fn image(data: Vec<u8>) -> Element {
    Element::Image(ImageData::new(
        Bytes::from(data),
        "title".to_string(),
        "alt".to_string(),
        "png".to_string(),
        "center".to_string(),
        ImageDimension::default(),
    ))
}

fn markup(elements: Vec<Element>) -> String {
    lower(&Document::new(elements))
}

fn body(markup: &str) -> &str {
    markup.strip_prefix("#set page(header: [], footer: [])\n").unwrap()
}

struct Pages {
    library: Prehashed<Library>,
    book: Prehashed<FontBook>,
    source: Source,
    images: HashMap<String, Bytes>,
}

impl World for Pages {
    fn library(&self) -> &Prehashed<Library> {
        &self.library
    }

    fn book(&self) -> &Prehashed<FontBook> {
        &self.book
    }

    fn main(&self) -> Source {
        self.source.clone()
    }

    fn source(&self, id: FileId) -> FileResult<Source> {
        if id == self.source.id() {
            Ok(self.source.clone())
        } else {
            Err(FileError::NotFound(id.vpath().as_rootless_path().to_path_buf()))
        }
    }

    fn file(&self, id: FileId) -> FileResult<TypstBytes> {
        let path = id.vpath().as_rootless_path();
        match self.images.get(path.to_string_lossy().as_ref()) {
            Some(data) => Ok(TypstBytes::from(data.to_vec())),
            None => Err(FileError::NotFound(path.to_path_buf())),
        }
    }

    fn font(&self, _index: usize) -> Option<Font> {
        None
    }

    fn today(&self, _offset: Option<i64>) -> Option<Datetime> {
        None
    }
}

fn typeset(document: &Document) -> Typeset {
    let world = Pages {
        library: Prehashed::new(Library::default()),
        book: Prehashed::new(FontBook::new()),
        source: Source::detached(lower(document)),
        images: Transformer::image_files(document).into_iter().collect(),
    };
    let mut tracer = Tracer::new();
    match typst::compile(&world, &mut tracer) {
        Ok(pages) => Typeset::File(typst_pdf::pdf(&pages, Smart::Auto, None)),
        Err(_) => Typeset::Failed,
    }
}

#[test]
fn text_is_escaped_where_it_would_be_markup() {
    assert_eq!(body(&markup(vec![text("plain words")])), "plain words\n");
    assert_eq!(
        body(&markup(vec![text("a*b_c #d $e `f <g> @h =i -j +k /l [m] ~n \"o\" 'p' \\q")])),
        "a\\*b\\_c \\#d \\$e \\`f \\<g\\> \\@h \\=i \\-j \\+k \\/l \\[m\\] \\~n \\\"o\\\" \\'p\\' \\\\q\n"
    );
    assert_eq!(body(&markup(vec![text("")])), "\n");
}

#[test]
fn headings_have_as_many_signs_as_their_level() {
    assert_eq!(body(&markup(vec![Element::Header { level: 1, text: "One".to_string() }])), "= One\n\n");
    assert_eq!(body(&markup(vec![Element::Header { level: 3, text: "= Three".to_string() }])), "=== \\= Three\n\n");
    assert_eq!(body(&markup(vec![Element::Header { level: 0, text: "Zero".to_string() }])), "= Zero\n\n");
}

#[test]
fn paragraphs_and_lists_are_lowered() {
    let elements = vec![
        Element::Paragraph { elements: vec![text("a"), text("b")] },
        Element::List {
            elements: vec![
                item("x"),
                ListItem { element: Element::List { elements: vec![item("y")], numbered: true } },
            ],
            numbered: false,
        },
    ];
    assert_eq!(body(&markup(elements)), "a\nb\n\n- x\n-   + y\n\n");
}

#[test]
fn tables_are_lowered_cell_by_cell() {
    let table = Element::Table {
        headers: vec![item("A"), item("B")],
        rows: vec![
            TableRow { cells: vec![item("1"), ListItem { element: image(vec![1]) }] },
            TableRow { cells: vec![item("[2]")] },
        ],
    };
    assert_eq!(
        body(&markup(vec![table])),
        "#table(\n  columns: 2,\n  [A],\n  [B],\n  [1],\n  [],\n  [\\[2\\]],\n)\n\n"
    );
    assert_eq!(
        body(&markup(vec![Element::Table { headers: vec![], rows: vec![] }])),
        "#table(\n  columns: 1,\n)\n\n"
    );
}

#[test]
fn links_and_images_are_lowered() {
    let link = Element::Hyperlink {
        title: "Example [site]".to_string(),
        url: "https://example.com/a\"b\\c".to_string(),
        alt: "alt".to_string(),
        size: 8,
    };
    assert_eq!(
        body(&markup(vec![link, image(vec![1]), image(vec![2])])),
        "#link(\"https://example.com/a\\\"b\\\\c\")[Example \\[site\\]]\n#image(\"image0.png\")\n#image(\"image1.png\")\n"
    );
}

#[test]
fn header_and_footer_are_settings_of_the_page() {
    let mut document = Document::new(vec![text("body"), image(vec![2])]);
    document.set_page_header(vec![text("head"), image(vec![1])]);
    document.set_page_footer(vec![image(vec![3])]);
    assert_eq!(
        lower(&document),
        "#set page(header: [head\n#image(\"image0.png\")\n], footer: [#image(\"image2.png\")\n])\nbody\n#image(\"image1.png\")\n"
    );
    let files = Transformer::image_files(&document);
    assert_eq!(
        files,
        vec![
            ("image0.png".to_string(), Bytes::from(vec![1u8])),
            ("image1.png".to_string(), Bytes::from(vec![2u8])),
            ("image2.png".to_string(), Bytes::from(vec![3u8])),
        ]
    );
}

#[test]
fn image_files_follow_the_written_text() {
    let document = Document::new(vec![
        image(vec![1]),
        Element::Paragraph { elements: vec![text("a"), image(vec![2])] },
        Element::Table { headers: vec![ListItem { element: image(vec![9]) }], rows: vec![] },
        Element::List {
            elements: vec![ListItem { element: image(vec![3]) }, item("x")],
            numbered: false,
        },
    ]);
    let files = Transformer::image_files(&document);
    assert_eq!(
        files,
        vec![
            ("image0.png".to_string(), Bytes::from(vec![1u8])),
            ("image1.png".to_string(), Bytes::from(vec![2u8])),
            ("image2.png".to_string(), Bytes::from(vec![3u8])),
        ]
    );
    let written = String::from_utf8(Transformer::generate(&document).unwrap().to_vec()).unwrap();
    for (name, _) in &files {
        assert_eq!(written.matches(name.as_str()).count(), 1);
    }
    assert_eq!(Transformer::image_files(&Document::new(vec![])), vec![]);
}

#[test]
fn the_answer_of_the_typesetter_is_read() {
    assert_eq!(finish(Typeset::File(vec![1, 2, 3])), Ok(Bytes::from(vec![1u8, 2, 3])));
    assert_eq!(finish(Typeset::File(vec![])), Ok(Bytes::new()));
    assert_eq!(finish(Typeset::Failed), Err(GenerateError::Backend));
}

#[test]
fn the_typesetter_takes_the_markup() {
    let mut document = Document::new(vec![
        Element::Header { level: 2, text: "Ti*tle #1".to_string() },
        Element::Paragraph {
            elements: vec![text("Line 1"), text("a_b $c$ `d` <e> @f [g] ~h \\i \"j\" - + = /"), text("Line 3")],
        },
        Element::List {
            elements: vec![
                item("one"),
                ListItem { element: Element::List { elements: vec![item("deep")], numbered: true } },
                item("two"),
            ],
            numbered: true,
        },
        Element::Table {
            headers: vec![item("Header 1"), item("Header 2")],
            rows: vec![TableRow { cells: vec![item("Row 1, Column 1"), item("Row 1, Column 2")] }],
        },
        Element::Hyperlink {
            title: "Example".to_string(),
            url: "https://www.example.com".to_string(),
            alt: "Example Site".to_string(),
            size: 8,
        },
        image(decode(PIXEL).unwrap()),
    ]);
    document.set_page_header(vec![text("header")]);
    document.set_page_footer(vec![text("footer")]);
    match typeset(&document) {
        Typeset::File(data) => assert!(data.starts_with(b"%PDF-")),
        Typeset::Failed => panic!("the typesetter refused the markup"),
    }
}

#[test]
fn the_typesetter_takes_an_empty_document() {
    match finish(typeset(&Document::new(vec![]))) {
        Ok(data) => assert!(data.starts_with(b"%PDF-")),
        Err(e) => panic!("no file: {:?}", e),
    }
}

#[test]
fn a_missing_image_fails_the_typesetter() {
    let world = Pages {
        library: Prehashed::new(Library::default()),
        book: Prehashed::new(FontBook::new()),
        source: Source::detached(lower(&Document::new(vec![image(decode(PIXEL).unwrap())]))),
        images: HashMap::new(),
    };
    let mut tracer = Tracer::new();
    let answer = match typst::compile(&world, &mut tracer) {
        Ok(pages) => Typeset::File(typst_pdf::pdf(&pages, Smart::Auto, None)),
        Err(_) => Typeset::Failed,
    };
    assert_eq!(finish(answer), Err(GenerateError::Backend));
}

#[test]
fn test_hyperlink_generation() {
    let elements = vec![
        Element::Paragraph {
            elements: vec![
                Element::Text { text: "Line 1".to_owned(), size: 8 },
                Element::Text { text: "Line 2".to_owned(), size: 8 },
                Element::Text { text: "Line 3".to_owned(), size: 8 },
            ],
        },
        Element::Hyperlink {
            title: "Example".to_owned(),
            url: "https://www.example.com".to_owned(),
            alt: "Example Site".to_owned(),
            size: 8,
        },
        Element::Hyperlink {
            title: "GitHub".to_owned(),
            url: "https://www.github.com".to_owned(),
            alt: "GitHub".to_owned(),
            size: 8,
        },
    ];
    let document = Document::new(elements);

    let generated_result = finish(typeset(&document));

    assert!(generated_result.is_ok());
    assert!(generated_result.unwrap().starts_with(b"%PDF-"));
}
