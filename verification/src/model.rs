//! The document model: elements, images and the document that holds them.
//!
//! Every format is read into this model and written from it. An [`Element`] is
//! one node of a document's tree. Contracts speak of elements through their
//! views, in which text is a sequence of characters and a buffer a sequence of
//! bytes.

use vstd::prelude::*;
use bytes::Bytes;
use crate::base64::{decode, decoded, encode, encoded, lemma_round_trip, DecodeError};
use crate::buffer::{as_slice, contents, duplicate, from_vec};
use crate::chars::same_text;

verus! {

/// Why a source could not be read as a document.
#[derive(Debug, Clone, Copy, PartialEq, Eq, Structural)]
pub enum ParserError {
    /// An instruction lacks the operand that it works on.
    Common,
    /// An object is not of the kind that its place demands.
    WrongType,
    /// The bytes are not text in UTF-8.
    InvalidUtf8,
    /// The bytes are not a document of the declared format.
    Malformed,
}

/// Why a document could not be written in the target format.
#[derive(Debug, Clone, Copy, PartialEq, Eq, Structural)]
pub enum GenerateError {
    /// A table has a text cell in a column without a text header.
    Table,
    /// The typesetter that was to make the file has given up.
    Backend,
}

/// One of the three bands that a document's elements are divided into.
#[derive(Debug, Clone, Copy, PartialEq, Eq, Structural)]
pub enum Band {
    PageHeader,
    Body,
    PageFooter,
}

/// A format that documents are read from and written in, known by the
/// extension of its files.
#[derive(Debug, Clone, Copy, PartialEq, Eq, Structural)]
pub enum DocumentType {
    Text,
    Pdf,
}

/// The extension of a format's files.
pub open spec fn extension_of(document_type: DocumentType) -> Seq<char> {
    match document_type {
        DocumentType::Text => "txt"@,
        DocumentType::Pdf => "pdf"@,
    }
}

/// The format whose files have the given extension.
pub open spec fn type_of(extension: Seq<char>) -> Option<DocumentType> {
    if extension == "txt"@ {
        Some(DocumentType::Text)
    } else if extension == "pdf"@ {
        Some(DocumentType::Pdf)
    } else {
        None
    }
}

/// Formats and extensions go together one to one: a format is found again by
/// its extension, and an extension that names a format is that format's.
pub proof fn lemma_extensions_match(document_type: DocumentType, extension: Seq<char>)
    ensures
        type_of(extension_of(document_type)) == Some(document_type),
        type_of(extension) == Some(document_type) ==> extension_of(document_type) == extension,
{
    reveal_strlit("txt");
    reveal_strlit("pdf");
    assert("txt"@[0] != "pdf"@[0]);
}

impl DocumentType {
    /// The format whose files have the given extension, if there is one.
    pub fn from_extension(extension: &str) -> (r: Option<DocumentType>)
        ensures
            r == type_of(extension@),
    {
        if same_text(extension, "txt") {
            Some(DocumentType::Text)
        } else if same_text(extension, "pdf") {
            Some(DocumentType::Pdf)
        } else {
            None
        }
    }

    /// The extension of the format's files.
    pub fn extension(&self) -> (r: &'static str)
        ensures
            r@ == extension_of(*self),
    {
        match self {
            DocumentType::Text => "txt",
            DocumentType::Pdf => "pdf",
        }
    }

    /// The extensions of all formats.
    pub fn supported_extensions() -> (r: Vec<&'static str>)
        ensures
            r@.len() == 2,
            r@[0]@ == extension_of(DocumentType::Text),
            r@[1]@ == extension_of(DocumentType::Pdf),
    {
        let mut r: Vec<&'static str> = Vec::new();
        r.push("txt");
        r.push("pdf");
        r
    }
}

/// The width and height of an image, each given or left open.
#[derive(Debug, PartialEq)]
pub struct ImageDimension {
    pub width: Option<String>,
    pub height: Option<String>,
}

pub ghost struct ImageDimensionView {
    pub width: Option<Seq<char>>,
    pub height: Option<Seq<char>>,
}

impl View for ImageDimension {
    type V = ImageDimensionView;

    open spec fn view(&self) -> ImageDimensionView {
        ImageDimensionView {
            width: match self.width {
                Some(w) => Some(w@),
                None => None,
            },
            height: match self.height {
                Some(h) => Some(h@),
                None => None,
            },
        }
    }
}

impl Clone for ImageDimension {
    fn clone(&self) -> (d: ImageDimension)
        ensures
            d@ == self@,
    {
        ImageDimension {
            width: match &self.width {
                Some(w) => Some(w.clone()),
                None => None,
            },
            height: match &self.height {
                Some(h) => Some(h.clone()),
                None => None,
            },
        }
    }
}

impl Default for ImageDimension {
    fn default() -> (d: ImageDimension)
        ensures
            d@ == (ImageDimensionView { width: None, height: None }),
    {
        ImageDimension { width: None, height: None }
    }
}

/// An image: its bytes as they were found, and what describes them. Nothing
/// changes once it is made.
#[derive(Debug, PartialEq)]
pub struct ImageData {
    bytes: Bytes,
    title: String,
    alt: String,
    image_type: String,
    align: String,
    size: ImageDimension,
}

pub ghost struct ImageDataView {
    pub bytes: Seq<u8>,
    pub title: Seq<char>,
    pub alt: Seq<char>,
    pub image_type: Seq<char>,
    pub align: Seq<char>,
    pub size: ImageDimensionView,
}

impl View for ImageData {
    type V = ImageDataView;

    closed spec fn view(&self) -> ImageDataView {
        ImageDataView {
            bytes: contents(self.bytes),
            title: self.title@,
            alt: self.alt@,
            image_type: self.image_type@,
            align: self.align@,
            size: self.size@,
        }
    }
}

/// The base64 text of an image's bytes.
pub open spec fn image_text(image: ImageDataView) -> Seq<char> {
    encoded(image.bytes)
}

/// The image that a base64 text and a description make, if the text decodes.
pub open spec fn image_from_text(
    text: Seq<char>,
    title: Seq<char>,
    alt: Seq<char>,
    image_type: Seq<char>,
    align: Seq<char>,
    size: ImageDimensionView,
) -> Option<ImageDataView> {
    match decoded(text) {
        Some(bytes) => Some(ImageDataView { bytes, title, alt, image_type, align, size }),
        None => None,
    }
}

/// An image rebuilt from its own base64 text holds the bytes it held before,
/// whatever description it is given.
pub proof fn lemma_image_round_trip(
    image: ImageDataView,
    title: Seq<char>,
    alt: Seq<char>,
    image_type: Seq<char>,
    align: Seq<char>,
    size: ImageDimensionView,
)
    ensures
        image_from_text(image_text(image), title, alt, image_type, align, size) matches Some(back)
            && back.bytes == image.bytes,
{
    lemma_round_trip(image.bytes);
}

impl Clone for ImageData {
    /// A second image on the same bytes: the buffer is shared, not copied.
    fn clone(&self) -> (image: ImageData)
        ensures
            image@ == self@,
    {
        ImageData {
            bytes: duplicate(&self.bytes),
            title: self.title.clone(),
            alt: self.alt.clone(),
            image_type: self.image_type.clone(),
            align: self.align.clone(),
            size: self.size.clone(),
        }
    }
}

impl ImageData {
    pub fn new(
        bytes: Bytes,
        title: String,
        alt: String,
        image_type: String,
        align: String,
        size: ImageDimension,
    ) -> (image: ImageData)
        ensures
            image@ == (ImageDataView {
                bytes: contents(bytes),
                title: title@,
                alt: alt@,
                image_type: image_type@,
                align: align@,
                size: size@,
            }),
    {
        ImageData { bytes, title, alt, image_type, align, size }
    }

    /// Decodes base64 text into an image with the given description.
    pub fn from_base64(
        text: &str,
        title: String,
        alt: String,
        image_type: String,
        align: String,
        size: ImageDimension,
    ) -> (r: Result<ImageData, DecodeError>)
        ensures
            match r {
                Ok(image) => image_from_text(text@, title@, alt@, image_type@, align@, size@)
                    == Some(image@),
                Err(_) => image_from_text(text@, title@, alt@, image_type@, align@, size@) is None,
            },
    {
        match decode(text) {
            Ok(bytes) => Ok(ImageData::new(from_vec(bytes), title, alt, image_type, align, size)),
            Err(e) => Err(e),
        }
    }

    /// The image's bytes as base64 text.
    pub fn to_base64(&self) -> (text: String)
        ensures
            text@ == image_text(self@),
    {
        encode(as_slice(&self.bytes))
    }

    pub fn bytes(&self) -> (b: &Bytes)
        ensures
            contents(*b) == self@.bytes,
    {
        &self.bytes
    }

    pub fn title(&self) -> (s: &str)
        ensures
            s@ == self@.title,
    {
        self.title.as_str()
    }

    pub fn alt(&self) -> (s: &str)
        ensures
            s@ == self@.alt,
    {
        self.alt.as_str()
    }

    pub fn image_type(&self) -> (s: &str)
        ensures
            s@ == self@.image_type,
    {
        self.image_type.as_str()
    }

    pub fn align(&self) -> (s: &str)
        ensures
            s@ == self@.align,
    {
        self.align.as_str()
    }

    pub fn size(&self) -> (d: &ImageDimension)
        ensures
            d@ == self@.size,
    {
        &self.size
    }
}

/// An entry of a list, a header of a table or a cell of a table: it wraps
/// exactly one element.
#[derive(Debug, PartialEq)]
pub struct ListItem {
    pub element: Element,
}

/// One row of a table.
#[derive(Debug, PartialEq)]
pub struct TableRow {
    pub cells: Vec<ListItem>,
}

/// One node of a document's tree.
#[derive(Debug, PartialEq)]
#[allow(inconsistent_fields)]
pub enum Element {
    Text { text: String, size: u8 },
    Header { level: u8, text: String },
    Paragraph { elements: Vec<Element> },
    List { elements: Vec<ListItem>, numbered: bool },
    Table { headers: Vec<ListItem>, rows: Vec<TableRow> },
    Hyperlink { title: String, url: String, alt: String, size: u8 },
    Image(ImageData),
}

/// The size given to text that is read from a page or from plain text.
pub const TEXT_SIZE: u8 = 8;

/// A run of text as an element.
pub open spec fn text_element(text: Seq<char>) -> ElementView {
    ElementView::Text { text, size: TEXT_SIZE }
}

/// An element as contracts speak of it. An item of a list and a cell of a
/// table stand for the element they wrap.
#[allow(inconsistent_fields)]
pub ghost enum ElementView {
    Text { text: Seq<char>, size: u8 },
    Header { level: u8, text: Seq<char> },
    Paragraph { elements: Seq<ElementView> },
    List { elements: Seq<ElementView>, numbered: bool },
    Table { headers: Seq<ElementView>, rows: Seq<Seq<ElementView>> },
    Hyperlink { title: Seq<char>, url: Seq<char>, alt: Seq<char>, size: u8 },
    Image(ImageDataView),
}

impl View for Element {
    type V = ElementView;

    open spec fn view(&self) -> ElementView {
        element_view(*self)
    }
}

impl View for ListItem {
    type V = ElementView;

    open spec fn view(&self) -> ElementView {
        element_view(self.element)
    }
}

impl View for TableRow {
    type V = Seq<ElementView>;

    open spec fn view(&self) -> Seq<ElementView> {
        items_view(self.cells@)
    }
}

pub open spec fn element_view(e: Element) -> ElementView
    decreases e,
{
    match e {
        Element::Text { text, size } => ElementView::Text { text: text@, size },
        Element::Header { level, text } => ElementView::Header { level, text: text@ },
        Element::Paragraph { elements } => ElementView::Paragraph {
            elements: elements_view(elements@),
        },
        Element::List { elements, numbered } => ElementView::List {
            elements: items_view(elements@),
            numbered,
        },
        Element::Table { headers, rows } => ElementView::Table {
            headers: items_view(headers@),
            rows: rows_view(rows@),
        },
        Element::Hyperlink { title, url, alt, size } => ElementView::Hyperlink {
            title: title@,
            url: url@,
            alt: alt@,
            size,
        },
        Element::Image(image) => ElementView::Image(image@),
    }
}

pub open spec fn elements_view(s: Seq<Element>) -> Seq<ElementView>
    decreases s,
{
    Seq::new(s.len(), |i: int| if 0 <= i < s.len() { element_view(s[i]) } else { arbitrary() })
}

pub open spec fn items_view(s: Seq<ListItem>) -> Seq<ElementView>
    decreases s,
{
    Seq::new(
        s.len(),
        |i: int| if 0 <= i < s.len() { element_view(s[i].element) } else { arbitrary() },
    )
}

pub open spec fn rows_view(s: Seq<TableRow>) -> Seq<Seq<ElementView>>
    decreases s,
{
    Seq::new(s.len(), |i: int| if 0 <= i < s.len() { items_view(s[i].cells@) } else { arbitrary() })
}

/// The view of a sequence with one more element is the view with one more.
pub proof fn lemma_elements_view_push(s: Seq<Element>, e: Element)
    ensures
        elements_view(s.push(e)) == elements_view(s).push(e@),
{
    assert(elements_view(s.push(e)) =~= elements_view(s).push(e@));
}

/// The view of a sequence of items with one more item is the view with one
/// more.
pub proof fn lemma_items_view_push(s: Seq<ListItem>, item: ListItem)
    ensures
        items_view(s.push(item)) == items_view(s).push(item@),
{
    assert(items_view(s.push(item)) =~= items_view(s).push(item@));
}

/// The view of a sequence without its last element is the view without its
/// last.
pub proof fn lemma_elements_view_drop_last(s: Seq<Element>)
    requires
        s.len() > 0,
    ensures
        elements_view(s.drop_last()) == elements_view(s).drop_last(),
        elements_view(s).last() == s.last()@,
{
    assert(elements_view(s.drop_last()) =~= elements_view(s).drop_last());
}

/// A copy of an element. Images share their bytes with the copy.
fn copy_element(element: &Element) -> (copy: Element)
    ensures
        copy@ == element@,
    decreases element,
{
    match element {
        Element::Text { text, size } => Element::Text { text: text.clone(), size: *size },
        Element::Header { level, text } => Element::Header { level: *level, text: text.clone() },
        Element::Paragraph { elements } => {
            assert(decreases_to!(*element => *elements));
            Element::Paragraph { elements: copy_elements(elements) }
        },
        Element::List { elements, numbered } => {
            assert(decreases_to!(*element => *elements));
            Element::List { elements: copy_items(elements), numbered: *numbered }
        },
        Element::Table { headers, rows } => {
            assert(decreases_to!(*element => *headers));
            assert(decreases_to!(*element => *rows));
            Element::Table { headers: copy_items(headers), rows: copy_rows(rows) }
        },
        Element::Hyperlink { title, url, alt, size } => Element::Hyperlink {
            title: title.clone(),
            url: url.clone(),
            alt: alt.clone(),
            size: *size,
        },
        Element::Image(image) => Element::Image(image.clone()),
    }
}

/// A copy of a sequence of elements.
fn copy_elements(elements: &Vec<Element>) -> (copy: Vec<Element>)
    ensures
        elements_view(copy@) == elements_view(elements@),
    decreases elements,
{
    let mut copy: Vec<Element> = Vec::new();
    let mut i: usize = 0;
    while i < elements.len()
        invariant
            i <= elements.len(),
            copy@.len() == i,
            forall|k: int| 0 <= k < i ==> (#[trigger] copy@[k])@ == elements@[k]@,
        decreases elements.len() - i,
    {
        assert(decreases_to!(*elements => elements[i as int]));
        copy.push(copy_element(&elements[i]));
        i += 1;
    }
    assert(elements_view(copy@) =~= elements_view(elements@));
    copy
}

/// A copy of a sequence of items.
fn copy_items(items: &Vec<ListItem>) -> (copy: Vec<ListItem>)
    ensures
        items_view(copy@) == items_view(items@),
    decreases items,
{
    let mut copy: Vec<ListItem> = Vec::new();
    let mut i: usize = 0;
    while i < items.len()
        invariant
            i <= items.len(),
            copy@.len() == i,
            forall|k: int| 0 <= k < i ==> (#[trigger] copy@[k])@ == items@[k]@,
        decreases items.len() - i,
    {
        assert(decreases_to!(*items => items[i as int]));
        assert(decreases_to!(items[i as int] => items[i as int].element));
        copy.push(ListItem { element: copy_element(&items[i].element) });
        i += 1;
    }
    assert(items_view(copy@) =~= items_view(items@));
    copy
}

/// A copy of the rows of a table.
fn copy_rows(rows: &Vec<TableRow>) -> (copy: Vec<TableRow>)
    ensures
        rows_view(copy@) == rows_view(rows@),
    decreases rows,
{
    let mut copy: Vec<TableRow> = Vec::new();
    let mut i: usize = 0;
    while i < rows.len()
        invariant
            i <= rows.len(),
            copy@.len() == i,
            forall|k: int| 0 <= k < i ==> (#[trigger] copy@[k])@ == rows@[k]@,
        decreases rows.len() - i,
    {
        assert(decreases_to!(*rows => rows[i as int]));
        assert(decreases_to!(rows[i as int] => rows[i as int].cells));
        copy.push(TableRow { cells: copy_items(&rows[i].cells) });
        i += 1;
    }
    assert(rows_view(copy@) =~= rows_view(rows@));
    copy
}

impl Clone for Element {
    /// A copy of the element and of all it holds. Images share their bytes
    /// with the copy.
    fn clone(&self) -> (copy: Element)
        ensures
            copy@ == self@,
    {
        copy_element(self)
    }
}

impl Clone for ListItem {
    fn clone(&self) -> (copy: ListItem)
        ensures
            copy@ == self@,
    {
        ListItem { element: copy_element(&self.element) }
    }
}

impl Clone for TableRow {
    fn clone(&self) -> (copy: TableRow)
        ensures
            copy@ == self@,
    {
        TableRow { cells: copy_items(&self.cells) }
    }
}

impl Clone for Document {
    fn clone(&self) -> (copy: Document)
        ensures
            copy@ == self@,
    {
        Document {
            page_header: copy_elements(&self.page_header),
            elements: copy_elements(&self.elements),
            page_footer: copy_elements(&self.page_footer),
        }
    }
}

/// A document: its elements in three bands. Each element lies in exactly one
/// band, and within a band in the order in which it was put there.
#[derive(Debug, PartialEq)]
pub struct Document {
    page_header: Vec<Element>,
    elements: Vec<Element>,
    page_footer: Vec<Element>,
}

pub ghost struct DocumentView {
    pub page_header: Seq<ElementView>,
    pub body: Seq<ElementView>,
    pub page_footer: Seq<ElementView>,
}

impl DocumentView {
    /// The elements of one band.
    pub open spec fn band(self, band: Band) -> Seq<ElementView> {
        match band {
            Band::PageHeader => self.page_header,
            Band::Body => self.body,
            Band::PageFooter => self.page_footer,
        }
    }

    /// All elements, band after band.
    pub open spec fn all(self) -> Seq<ElementView> {
        self.page_header + self.body + self.page_footer
    }
}

impl View for Document {
    type V = DocumentView;

    closed spec fn view(&self) -> DocumentView {
        DocumentView {
            page_header: elements_view(self.page_header@),
            body: elements_view(self.elements@),
            page_footer: elements_view(self.page_footer@),
        }
    }
}

/// The bands in the order in which a document is written out.
pub open spec fn band_order() -> Seq<Band> {
    seq![Band::PageHeader, Band::Body, Band::PageFooter]
}

impl Document {
    /// A document with the given body and empty page header and footer.
    pub fn new(elements: Vec<Element>) -> (d: Document)
        ensures
            d@ == (DocumentView {
                page_header: Seq::empty(),
                body: elements_view(elements@),
                page_footer: Seq::empty(),
            }),
    {
        let d = Document { page_header: Vec::new(), elements, page_footer: Vec::new() };
        assert(elements_view(d.page_header@) =~= Seq::empty());
        assert(elements_view(d.page_footer@) =~= Seq::empty());
        d
    }

    /// The bands in the order in which a document is written out.
    pub fn bands() -> (bands: Vec<Band>)
        ensures
            bands@ == band_order(),
    {
        let mut bands: Vec<Band> = Vec::new();
        bands.push(Band::PageHeader);
        bands.push(Band::Body);
        bands.push(Band::PageFooter);
        assert(bands@ =~= band_order());
        bands
    }

    /// The elements of one band, in their order.
    pub fn get_elements_by_band(&self, band: Band) -> (elements: &Vec<Element>)
        ensures
            elements_view(elements@) == self@.band(band),
    {
        match band {
            Band::PageHeader => &self.page_header,
            Band::Body => &self.elements,
            Band::PageFooter => &self.page_footer,
        }
    }

    /// Replaces the page header; body and page footer stay.
    pub fn set_page_header(&mut self, elements: Vec<Element>)
        ensures
            final(self)@ == (DocumentView {
                page_header: elements_view(elements@),
                body: old(self)@.body,
                page_footer: old(self)@.page_footer,
            }),
    {
        self.page_header = elements;
    }

    /// Replaces the page footer; page header and body stay.
    pub fn set_page_footer(&mut self, elements: Vec<Element>)
        ensures
            final(self)@ == (DocumentView {
                page_header: old(self)@.page_header,
                body: old(self)@.body,
                page_footer: elements_view(elements@),
            }),
    {
        self.page_footer = elements;
    }
}

/// Each place of [`DocumentView::all`] belongs to exactly one band, and the
/// bands follow one another in the order of [`band_order`].
pub proof fn lemma_bands_partition(d: DocumentView, i: int)
    requires
        0 <= i < d.all().len(),
    ensures
        d.all().len() == d.page_header.len() + d.body.len() + d.page_footer.len(),
        i < d.page_header.len() ==> d.all()[i] == d.band(Band::PageHeader)[i],
        d.page_header.len() <= i < d.page_header.len() + d.body.len() ==> d.all()[i] == d.band(
            Band::Body,
        )[i - d.page_header.len()],
        d.page_header.len() + d.body.len() <= i ==> d.all()[i] == d.band(Band::PageFooter)[i
            - d.page_header.len() - d.body.len()],
{
}

} // verus!
