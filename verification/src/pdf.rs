//! Reading PDF files into the document model.
//!
//! A file is read page by page, in the order of the page tree. Of each page
//! the images among its resources come first, as they are stored; then what
//! the page's content shows. All pages go into one document, nothing marks
//! where one ends.

use vstd::prelude::*;
use vstd::utf8::{decode_utf8, encode_utf8, valid_utf8};
use bytes::Bytes;
use crate::buffer::{as_slice, contents, from_vec};
use crate::classic::{classic, is_classic, Scan};
use crate::chars::{lossy_text, same_text, string_from_utf8_lossy};
use crate::content::{
    fonts_view,
    interpret_page,
    lemma_page_keeps_images,
    operations_view,
    page_elements,
    FontEncoding,
    FontEncodingView,
    Operation,
    OperationView,
};
use crate::model::{
    elements_view,
    lemma_elements_view_push,
    Document,
    DocumentView,
    Element,
    ElementView,
    ImageData,
    ImageDataView,
    ImageDimension,
    ImageDimensionView,
    ParserError,
};
use crate::source::{
    as_dictionary,
    as_integer,
    as_name_text,
    as_reference,
    content_ids_of,
    content_of,
    content_stream_tame,
    content_tame,
    integer_at,
    page_content_ids,
    stream_tame,
    BITS_LIMIT,
    COLORS_LIMIT,
    COLUMNS_LIMIT,
    declared_encoding,
    decoded_content,
    dictionary_view,
    entries,
    entry,
    font_encoding_name,
    fonts_of,
    load,
    lookup,
    object,
    object_of,
    object_view,
    operations,
    page_content,
    page_fonts,
    page_ids,
    page_resources,
    page_settled,
    pages_of,
    parents_end,
    readable,
    resources_of,
    nesting,
    shallow,
    source,
    stream_parts,
    EntryView,
    ObjectView,
    PdfFile,
    NESTING_LIMIT,
    PARENT_LIMIT,
};

verus! {

/// The transformer for PDF files.
pub struct Transformer;

/// What the dictionary of an external object says under `Subtype`.
#[derive(Debug, PartialEq)]
pub enum Subtype {
    /// The dictionary has no such entry.
    Missing,
    /// The entry is not a name, or not one in UTF-8.
    Unreadable,
    /// The entry is this name.
    Name(String),
}

/// An external object among a page's resources: a stream under a name.
#[derive(Debug, PartialEq)]
pub struct XObject {
    /// The name under which the page lists the object.
    pub name: Vec<u8>,
    pub subtype: Subtype,
    /// The bytes of the stream as the file holds them.
    pub content: Vec<u8>,
}

/// What is read of one page.
#[derive(Debug, PartialEq)]
pub struct Page {
    /// The external objects, in the order of the resource dictionary.
    pub xobjects: Vec<XObject>,
    /// The encodings of the page's fonts.
    pub fonts: Vec<FontEncoding>,
    /// The operations of the page's content; `None` where the content could
    /// not be decoded.
    pub operations: Option<Vec<Operation>>,
}

pub ghost enum SubtypeView {
    Missing,
    Unreadable,
    Name(Seq<char>),
}

pub ghost struct XObjectView {
    pub name: Seq<u8>,
    pub subtype: SubtypeView,
    pub content: Seq<u8>,
}

pub ghost struct PageView {
    pub xobjects: Seq<XObjectView>,
    pub fonts: Seq<FontEncodingView>,
    pub operations: Option<Seq<OperationView>>,
}

impl View for Subtype {
    type V = SubtypeView;

    open spec fn view(&self) -> SubtypeView {
        match self {
            Subtype::Missing => SubtypeView::Missing,
            Subtype::Unreadable => SubtypeView::Unreadable,
            Subtype::Name(name) => SubtypeView::Name(name@),
        }
    }
}

impl View for XObject {
    type V = XObjectView;

    open spec fn view(&self) -> XObjectView {
        XObjectView { name: self.name@, subtype: self.subtype@, content: self.content@ }
    }
}

impl View for Page {
    type V = PageView;

    open spec fn view(&self) -> PageView {
        PageView {
            xobjects: xobjects_view(self.xobjects@),
            fonts: fonts_view(self.fonts@),
            operations: match self.operations {
                Some(list) => Some(operations_view(list@)),
                None => None,
            },
        }
    }
}

pub open spec fn xobjects_view(xobjects: Seq<XObject>) -> Seq<XObjectView> {
    Seq::new(xobjects.len(), |i: int| xobjects[i]@)
}

pub open spec fn pages_view(pages: Seq<Page>) -> Seq<PageView> {
    Seq::new(pages.len(), |i: int| pages[i]@)
}

/// Whether an external object is an image.
pub open spec fn is_image(xobject: XObjectView) -> bool {
    xobject.subtype == SubtypeView::Name("Image"@)
}

/// The image element made of an external object: its bytes as they are
/// stored, a title made of its name, and the tags given to every image that
/// comes from a page.
pub open spec fn image_element(xobject: XObjectView) -> ElementView {
    ElementView::Image(
        ImageDataView {
            bytes: xobject.content,
            title: "PDF Image "@ + lossy_text(xobject.name),
            alt: "PDF Image"@,
            image_type: "png"@,
            align: "center"@,
            size: ImageDimensionView { width: None, height: None },
        },
    )
}

/// The elements after the first `count` external objects of a page: each
/// image is appended; an object without a readable subtype ends the reading.
pub open spec fn with_images(elements: Seq<ElementView>, xobjects: Seq<XObjectView>, count: nat)
    -> Result<Seq<ElementView>, ParserError>
    decreases count,
{
    if count == 0 || count > xobjects.len() {
        Ok(elements)
    } else {
        match with_images(elements, xobjects, (count - 1) as nat) {
            Ok(before) => {
                let xobject = xobjects[count - 1];
                if xobject.subtype is Unreadable {
                    Err(ParserError::WrongType)
                } else if is_image(xobject) {
                    Ok(before.push(image_element(xobject)))
                } else {
                    Ok(before)
                }
            },
            Err(e) => Err(e),
        }
    }
}

/// The elements after one page: its images, then what its content shows. A
/// page whose content could not be decoded ends the reading.
pub open spec fn with_page(elements: Seq<ElementView>, page: PageView) -> Result<
    Seq<ElementView>,
    ParserError,
> {
    match with_images(elements, page.xobjects, page.xobjects.len()) {
        Ok(pictured) => match page.operations {
            Some(list) => page_elements(pictured, page.fonts, list),
            None => Err(ParserError::Malformed),
        },
        Err(e) => Err(e),
    }
}

/// The elements after the first `count` pages, or the first error.
pub open spec fn with_pages(pages: Seq<PageView>, count: nat) -> Result<
    Seq<ElementView>,
    ParserError,
>
    decreases count,
{
    if count == 0 || count > pages.len() {
        Ok(Seq::empty())
    } else {
        match with_pages(pages, (count - 1) as nat) {
            Ok(before) => with_page(before, pages[count - 1]),
            Err(e) => Err(e),
        }
    }
}

/// The document that the pages of a file make.
pub open spec fn parsed(pages: Seq<PageView>) -> Result<DocumentView, ParserError> {
    match with_pages(pages, pages.len()) {
        Ok(elements) => Ok(
            DocumentView { page_header: Seq::empty(), body: elements, page_footer: Seq::empty() },
        ),
        Err(e) => Err(e),
    }
}

/// The number of images among the first `count` external objects.
pub open spec fn image_count(xobjects: Seq<XObjectView>, count: nat) -> nat
    decreases count,
{
    if count == 0 || count > xobjects.len() {
        0
    } else if is_image(xobjects[count - 1]) {
        image_count(xobjects, (count - 1) as nat) + 1
    } else {
        image_count(xobjects, (count - 1) as nat)
    }
}

/// The resource scan adds one element for each image among the external
/// objects and nothing else, where every subtype can be read.
pub proof fn lemma_one_element_per_image(
    elements: Seq<ElementView>,
    xobjects: Seq<XObjectView>,
    count: nat,
)
    requires
        count <= xobjects.len(),
        forall|i: int| 0 <= i < count ==> !(xobjects[i].subtype is Unreadable),
    ensures
        with_images(elements, xobjects, count) matches Ok(after) && after.len() == elements.len()
            + image_count(xobjects, count) && after.take(elements.len() as int) == elements,
    decreases count,
{
    if count > 0 {
        lemma_one_element_per_image(elements, xobjects, (count - 1) as nat);
        let before = with_images(elements, xobjects, (count - 1) as nat)->Ok_0;
        if is_image(xobjects[count - 1]) {
            assert(before.push(image_element(xobjects[count - 1])).take(elements.len() as int)
                =~= before.take(elements.len() as int));
        }
    } else {
        assert(elements.take(elements.len() as int) =~= elements);
    }
}

/// A page that lists exactly one image among its external objects yields
/// exactly one image element, and that element holds as many bytes as the
/// object's stream.
pub proof fn lemma_single_image(xobjects: Seq<XObjectView>, at: int)
    requires
        0 <= at < xobjects.len(),
        is_image(xobjects[at]),
        forall|i: int|
            0 <= i < xobjects.len() && i != at ==> !is_image(xobjects[i]) && !(
            xobjects[i].subtype is Unreadable),
    ensures
        with_images(Seq::empty(), xobjects, xobjects.len()) == Ok::<Seq<ElementView>, ParserError>(
            seq![image_element(xobjects[at])],
        ),
        image_element(xobjects[at]) matches ElementView::Image(image) && image.bytes.len()
            == xobjects[at].content.len(),
{
    lemma_images_around(xobjects, at, xobjects.len());
}

/// A first page that lists exactly one image among its external objects, and
/// that can be read, yields exactly one image element: the first element,
/// which holds as many bytes as the object's stream. Whatever the page's
/// content shows comes behind it and is no image.
pub proof fn lemma_single_image_page(page: PageView, at: int)
    requires
        0 <= at < page.xobjects.len(),
        is_image(page.xobjects[at]),
        forall|i: int|
            0 <= i < page.xobjects.len() && i != at ==> !is_image(page.xobjects[i]) && !(
            page.xobjects[i].subtype is Unreadable),
        with_page(Seq::empty(), page) is Ok,
    ensures
        ({
            let after = with_page(Seq::empty(), page)->Ok_0;
            &&& after.len() >= 1
            &&& after[0] == image_element(page.xobjects[at])
            &&& forall|i: int| 0 <= i < after.len() && (#[trigger] after[i]) is Image ==> i == 0
            &&& after[0] matches ElementView::Image(image) && image.bytes.len()
                == page.xobjects[at].content.len()
        }),
{
    lemma_single_image(page.xobjects, at);
    let pictured = seq![image_element(page.xobjects[at])];
    assert(pictured[0] is Image);
    lemma_page_keeps_images(pictured, page.fonts, page.operations->0);
}

proof fn lemma_images_around(xobjects: Seq<XObjectView>, at: int, count: nat)
    requires
        0 <= at < xobjects.len(),
        count <= xobjects.len(),
        is_image(xobjects[at]),
        forall|i: int|
            0 <= i < xobjects.len() && i != at ==> !is_image(xobjects[i]) && !(
            xobjects[i].subtype is Unreadable),
    ensures
        with_images(Seq::empty(), xobjects, count) == Ok::<Seq<ElementView>, ParserError>(
            if count <= at {
                Seq::empty()
            } else {
                seq![image_element(xobjects[at])]
            },
        ),
    decreases count,
{
    if count > 0 {
        lemma_images_around(xobjects, at, (count - 1) as nat);
        if count - 1 == at {
            assert(Seq::<ElementView>::empty().push(image_element(xobjects[at])) =~= seq![
                image_element(xobjects[at]),
            ]);
        }
    }
}

/// Appends the images among a page's external objects to the elements. The
/// elements given stay as they are, whether the scan comes to its end or not.
pub fn append_images(xobjects: &Vec<XObject>, elements: &mut Vec<Element>) -> (r: Result<
    (),
    ParserError,
>)
    ensures
        match with_images(
            elements_view(old(elements)@),
            xobjects_view(xobjects@),
            xobjects@.len(),
        ) {
            Ok(after) => r is Ok && elements_view(final(elements)@) == after,
            Err(e) => r == Err::<(), ParserError>(e),
        },
        old(elements)@.len() <= final(elements)@.len(),
        elements_view(final(elements)@).take(old(elements)@.len() as int) == elements_view(
            old(elements)@,
        ),
{
    let mut i: usize = 0;
    assert(elements_view(elements@).take(elements@.len() as int) =~= elements_view(elements@));
    while i < xobjects.len()
        invariant
            i <= xobjects.len(),
            old(elements)@.len() <= elements@.len(),
            elements_view(elements@).take(old(elements)@.len() as int) == elements_view(
                old(elements)@,
            ),
            with_images(elements_view(old(elements)@), xobjects_view(xobjects@), i as nat) == Ok::<
                Seq<ElementView>,
                ParserError,
            >(elements_view(elements@)),
        decreases xobjects.len() - i,
    {
        let xobject = &xobjects[i];
        assert(xobjects_view(xobjects@)[i as int] == xobject@);
        match &xobject.subtype {
            Subtype::Unreadable => {
                proof {
                    lemma_images_fail(
                        elements_view(old(elements)@),
                        xobjects_view(xobjects@),
                        (i + 1) as nat,
                        xobjects@.len(),
                    );
                }
                return Err(ParserError::WrongType);
            },
            Subtype::Name(name) => {
                if same_text(name.as_str(), "Image") {
                    let image = image_from(xobject);
                    proof {
                        lemma_elements_view_push(elements@, image);
                        assert(elements_view(elements@).push(image@).take(
                            old(elements)@.len() as int,
                        ) =~= elements_view(elements@).take(old(elements)@.len() as int));
                    }
                    elements.push(image);
                }
            },
            Subtype::Missing => {},
        }
        i += 1;
    }
    Ok(())
}

proof fn lemma_images_fail(
    elements: Seq<ElementView>,
    xobjects: Seq<XObjectView>,
    at: nat,
    count: nat,
)
    requires
        at <= count <= xobjects.len(),
        with_images(elements, xobjects, at) is Err,
    ensures
        with_images(elements, xobjects, count) == with_images(elements, xobjects, at),
    decreases count,
{
    if at < count {
        lemma_images_fail(elements, xobjects, at, (count - 1) as nat);
    }
}

/// Makes the image element of an external object.
fn image_from(xobject: &XObject) -> (image: Element)
    ensures
        image@ == image_element(xobject@),
{
    let mut title = String::from_str("PDF Image ");
    let name = string_from_utf8_lossy(xobject.name.as_slice());
    title.append(name.as_str());
    let data = copy_of(&xobject.content);
    Element::Image(
        ImageData::new(
            from_vec(data),
            title,
            String::from_str("PDF Image"),
            String::from_str("png"),
            String::from_str("center"),
            ImageDimension::default(),
        ),
    )
}

/// A copy of a byte string.
fn copy_of(data: &Vec<u8>) -> (copy: Vec<u8>)
    ensures
        copy@ == data@,
{
    let mut copy: Vec<u8> = Vec::new();
    let mut i: usize = 0;
    while i < data.len()
        invariant
            i <= data.len(),
            copy@ == data@.take(i as int),
        decreases data.len() - i,
    {
        copy.push(data[i]);
        assert(data@.take(i + 1) =~= data@.take(i as int).push(data@[i as int]));
        i += 1;
    }
    assert(data@.take(data.len() as int) =~= data@);
    copy
}

/// What a stream's dictionary says under `Subtype`.
pub open spec fn subtype_of(dictionary: Seq<EntryView>) -> SubtypeView {
    match lookup(dictionary, encode_utf8("Subtype"@)) {
        None => SubtypeView::Missing,
        Some(ObjectView::Name(name)) => if valid_utf8(name) {
            SubtypeView::Name(decode_utf8(name))
        } else {
            SubtypeView::Unreadable
        },
        Some(_) => SubtypeView::Unreadable,
    }
}

/// The external object that an entry of the `XObject` dictionary stands for:
/// the stream that the entry refers to, under the entry's name. An entry that
/// is no reference, or refers to no stream, stands for none.
pub open spec fn xobject_of(data: Seq<u8>, listed: EntryView) -> Option<XObjectView> {
    match listed.value {
        ObjectView::Reference(id) => match object_of(data, id) {
            Some(ObjectView::Stream { dictionary, content }) => Some(
                XObjectView { name: listed.key, subtype: subtype_of(dictionary), content },
            ),
            _ => None,
        },
        _ => None,
    }
}

/// The external objects among the first `count` entries of the `XObject`
/// dictionary, in their order.
pub open spec fn xobjects_among(data: Seq<u8>, listed: Seq<EntryView>, count: nat) -> Seq<
    XObjectView,
>
    decreases count,
{
    if count == 0 || count > listed.len() {
        Seq::empty()
    } else {
        let before = xobjects_among(data, listed, (count - 1) as nat);
        match xobject_of(data, listed[count - 1]) {
            Some(xobject) => before.push(xobject),
            None => before,
        }
    }
}

/// The external objects that a page of a file lists: those of the `XObject`
/// dictionary of the page's own resources, where that entry is a dictionary.
pub open spec fn xobjects_in(data: Seq<u8>, page: (u32, u16)) -> Seq<XObjectView> {
    match resources_of(data, page) {
        Some(resources) => match lookup(resources, encode_utf8("XObject"@)) {
            Some(ObjectView::Dictionary(listed)) => xobjects_among(data, listed, listed.len()),
            _ => Seq::empty(),
        },
        None => Seq::empty(),
    }
}

/// The encodings of the fonts of a page of a file.
pub open spec fn fonts_in(data: Seq<u8>, page: (u32, u16)) -> Seq<FontEncodingView> {
    Seq::new(
        fonts_of(data, page).len(),
        |i: int|
            FontEncodingView {
                name: fonts_of(data, page)[i].name,
                encoding: declared_encoding(fonts_of(data, page)[i].dictionary),
            },
    )
}

/// The operations of the content of a page of a file, where the content's
/// streams are tame and the content can be had, is shallow and can be
/// decoded.
pub open spec fn operations_in(data: Seq<u8>, page: (u32, u16)) -> Option<Seq<OperationView>> {
    if content_tame(data, page, content_ids_of(data, page).len()) {
        match content_of(data, page) {
            Some(content) => if shallow(content) {
                decoded_content(content)
            } else {
                None
            },
            None => None,
        }
    } else {
        None
    }
}

/// What is read of a page of a file.
pub open spec fn page_in(data: Seq<u8>, page: (u32, u16)) -> PageView {
    PageView {
        xobjects: xobjects_in(data, page),
        fonts: fonts_in(data, page),
        operations: operations_in(data, page),
    }
}

/// What is read of the pages of a file, in the order of the page tree.
pub open spec fn pages_in(data: Seq<u8>) -> Seq<PageView> {
    Seq::new(pages_of(data).len(), |i: int| page_in(data, pages_of(data)[i]))
}

/// Whether none of the first `count` pages of a file has more ancestors than
/// the limit.
pub open spec fn pages_settled(data: Seq<u8>, count: nat) -> bool {
    forall|i: int| 0 <= i < count && i < pages_of(data).len() ==> page_settled(
        data,
        #[trigger] pages_of(data)[i],
    )
}

/// The document that the bytes of a file are read into. Bytes that cannot be
/// read as a file at all are malformed, and so is a file that is not classic,
/// and one with a page that has more ancestors than the limit, as in a page
/// tree that runs in a circle.
pub open spec fn parsed_file(data: Seq<u8>) -> Result<DocumentView, ParserError> {
    if classic(data) && readable(data) && pages_settled(data, pages_of(data).len()) {
        parsed(pages_in(data))
    } else {
        Err(ParserError::Malformed)
    }
}

/// Whether a page has no more ancestors than the limit.
fn is_page_settled(file: &PdfFile, page: (u32, u16)) -> (r: bool)
    ensures
        r == page_settled(source(*file), page),
{
    let start = match object(file, page) {
        Some(found) => as_dictionary(found),
        None => None,
    };
    let mut node: &lopdf::Dictionary = match start {
        Some(node) => node,
        None => {
            return true;
        },
    };
    let mut fuel: usize = PARENT_LIMIT;
    loop
        invariant
            fuel <= PARENT_LIMIT,
            page_settled(source(*file), page) == parents_end(
                source(*file),
                dictionary_view(*node),
                fuel as nat,
            ),
        decreases fuel,
    {
        let referred = match entry(node, "Parent") {
            Some(found) => as_reference(found),
            None => None,
        };
        let above = match referred {
            Some(id) => match object(file, id) {
                Some(found) => as_dictionary(found),
                None => None,
            },
            None => None,
        };
        match above {
            Some(parent) => {
                if fuel == 0 {
                    return false;
                }
                fuel = fuel - 1;
                node = parent;
            },
            None => {
                return true;
            },
        }
    }
}

/// Whether a content stream never has more arrays and dictionaries open than
/// the limit.
pub fn is_shallow(data: &[u8]) -> (r: bool)
    ensures
        r == shallow(data@),
{
    let mut scan = Scan::start();
    let mut i: usize = 0;
    while i < data.len()
        invariant
            i <= data.len(),
            scan.depth <= i,
            scan.parens <= i,
            nesting(data@, i as nat) == scan@,
        decreases data.len() - i,
    {
        scan = scan.step(data[i]);
        i += 1;
    }
    scan.deepest <= NESTING_LIMIT
}

/// Reads what a stream's dictionary says under `Subtype`.
fn read_subtype(dictionary: &lopdf::Dictionary) -> (subtype: Subtype)
    ensures
        subtype@ == subtype_of(dictionary_view(*dictionary)),
{
    match entry(dictionary, "Subtype") {
        Some(tag) => match as_name_text(tag) {
            Some(name) => Subtype::Name(name),
            None => Subtype::Unreadable,
        },
        None => Subtype::Missing,
    }
}

/// Reads the external objects that a page lists: the entries of the `XObject`
/// dictionary of its resources that refer to a stream.
fn read_xobjects(file: &PdfFile, page: (u32, u16)) -> (xobjects: Vec<XObject>)
    requires
        page_settled(source(*file), page),
    ensures
        xobjects_view(xobjects@) == xobjects_in(source(*file), page),
{
    let mut xobjects: Vec<XObject> = Vec::new();
    assert(xobjects_view(xobjects@) =~= Seq::empty());
    let listed = match page_resources(file, page) {
        Some(resources) => match entry(resources, "XObject") {
            Some(found) => as_dictionary(found),
            None => None,
        },
        None => None,
    };
    if let Some(dictionary) = listed {
        let named = entries(dictionary);
        let ghost data = source(*file);
        let ghost held = dictionary_view(*dictionary);
        let mut i: usize = 0;
        while i < named.len()
            invariant
                i <= named.len(),
                data == source(*file),
                held == dictionary_view(*dictionary),
                named@.len() == held.len(),
                forall|k: int|
                    0 <= k < named@.len() ==> (#[trigger] named@[k]).0@ == held[k].key
                        && object_view(*named@[k].1) == held[k].value,
                xobjects_view(xobjects@) == xobjects_among(data, held, i as nat),
            decreases named.len() - i,
        {
            let ghost before = xobjects@;
            let referred = match as_reference(named[i].1) {
                Some(id) => object(file, id),
                None => None,
            };
            let parts = match referred {
                Some(found) => stream_parts(found),
                None => None,
            };
            if let Some((described, content)) = parts {
                let subtype = read_subtype(described);
                let xobject = XObject { name: copy_of(&named[i].0), subtype, content };
                assert(xobject_of(data, held[i as int]) == Some(xobject@));
                xobjects.push(xobject);
                assert(xobjects_view(xobjects@) =~= xobjects_view(before).push(xobject@));
            } else {
                assert(xobject_of(data, held[i as int]) is None);
            }
            i += 1;
        }
    }
    xobjects
}

/// Reads the encodings of a page's fonts.
fn read_fonts(file: &PdfFile, page: (u32, u16)) -> (fonts: Vec<FontEncoding>)
    requires
        page_settled(source(*file), page),
    ensures
        fonts_view(fonts@) == fonts_in(source(*file), page),
{
    let listed = page_fonts(file, page);
    let ghost found = fonts_of(source(*file), page);
    let mut fonts: Vec<FontEncoding> = Vec::new();
    let mut i: usize = 0;
    while i < listed.len()
        invariant
            i <= listed.len(),
            found == fonts_of(source(*file), page),
            listed@.len() == found.len(),
            forall|k: int|
                0 <= k < listed@.len() ==> (#[trigger] listed@[k]).0@ == found[k].name
                    && dictionary_view(*listed@[k].1) == found[k].dictionary,
            fonts@.len() == i,
            forall|k: int|
                0 <= k < i ==> (#[trigger] fonts@[k])@ == (FontEncodingView {
                    name: found[k].name,
                    encoding: declared_encoding(found[k].dictionary),
                }),
        decreases listed.len() - i,
    {
        fonts.push(
            FontEncoding { name: copy_of(&listed[i].0), encoding: font_encoding_name(listed[i].1) },
        );
        i += 1;
    }
    assert(fonts_view(fonts@) =~= fonts_in(source(*file), page));
    fonts
}

/// Reads the whole number under a key of a dictionary.
fn read_integer(dictionary: &lopdf::Dictionary, key: &str, otherwise: i64) -> (r: i64)
    ensures
        r == integer_at(dictionary_view(*dictionary), encode_utf8(key@), otherwise),
{
    match entry(dictionary, key) {
        Some(found) => match as_integer(found) {
            Some(number) => number,
            None => otherwise,
        },
        None => otherwise,
    }
}

/// Whether undoing the filters of a stream stays within bounds.
fn is_stream_tame(dictionary: &lopdf::Dictionary) -> (r: bool)
    ensures
        r == stream_tame(dictionary_view(*dictionary)),
{
    let parameters = match entry(dictionary, "DecodeParms") {
        Some(found) => as_dictionary(found),
        None => None,
    };
    match parameters {
        Some(parameters) => {
            let predictor = read_integer(parameters, "Predictor", 1);
            if 10 <= predictor && predictor <= 15 {
                read_integer(parameters, "Columns", 1) <= COLUMNS_LIMIT && read_integer(
                    parameters,
                    "Colors",
                    1,
                ) <= COLORS_LIMIT && read_integer(parameters, "BitsPerComponent", 8) <= BITS_LIMIT
            } else {
                true
            }
        },
        None => true,
    }
}

/// Whether the content streams of a page are tame.
fn is_content_tame(file: &PdfFile, page: (u32, u16)) -> (r: bool)
    ensures
        r == content_tame(source(*file), page, content_ids_of(source(*file), page).len()),
{
    let ids = page_content_ids(file, page);
    let mut i: usize = 0;
    while i < ids.len()
        invariant
            i <= ids.len(),
            ids@ == content_ids_of(source(*file), page),
            content_tame(source(*file), page, i as nat),
        decreases ids.len() - i,
    {
        let parts = match object(file, ids[i]) {
            Some(found) => stream_parts(found),
            None => None,
        };
        if let Some((described, _)) = parts {
            if !is_stream_tame(described) {
                assert(!content_stream_tame(
                    source(*file),
                    content_ids_of(source(*file), page)[i as int],
                ));
                return false;
            }
        }
        i += 1;
    }
    true
}

/// Reads the operations of a page's content. Content whose streams are not
/// tame is not asked for, and content that is not shallow is not handed to
/// the decoder.
fn read_operations(file: &PdfFile, page: (u32, u16)) -> (list: Option<Vec<Operation>>)
    ensures
        match list {
            Some(found) => operations_in(source(*file), page) == Some(operations_view(found@)),
            None => operations_in(source(*file), page) is None,
        },
{
    if !is_content_tame(file, page) {
        return None;
    }
    match page_content(file, page) {
        Ok(data) => {
            if !is_shallow(data.as_slice()) {
                return None;
            }
            match operations(data.as_slice()) {
                Ok(list) => Some(list),
                Err(_) => None,
            }
        },
        Err(_) => None,
    }
}

/// Reads the pages of a file, in the order of the page tree; none where a
/// page has more ancestors than the limit.
fn read_pages(file: &PdfFile) -> (r: Option<Vec<Page>>)
    ensures
        match r {
            Some(pages) => pages_settled(source(*file), pages_of(source(*file)).len())
                && pages_view(pages@) == pages_in(source(*file)),
            None => !pages_settled(source(*file), pages_of(source(*file)).len()),
        },
{
    let ids = page_ids(file);
    let mut pages: Vec<Page> = Vec::new();
    let mut i: usize = 0;
    while i < ids.len()
        invariant
            i <= ids.len(),
            ids@ == pages_of(source(*file)),
            pages_settled(source(*file), i as nat),
            pages@.len() == i,
            forall|k: int| 0 <= k < i ==> (#[trigger] pages@[k])@ == page_in(source(*file), ids@[k]),
        decreases ids.len() - i,
    {
        let id = ids[i];
        if !is_page_settled(file, id) {
            assert(!page_settled(source(*file), pages_of(source(*file))[i as int]));
            return None;
        }
        let page = Page {
            xobjects: read_xobjects(file, id),
            fonts: read_fonts(file, id),
            operations: read_operations(file, id),
        };
        assert(page@ == page_in(source(*file), id));
        pages.push(page);
        i += 1;
    }
    assert(pages_view(pages@) =~= pages_in(source(*file)));
    Some(pages)
}

impl Transformer {
    /// Builds the document of a file from what was read of its pages.
    pub fn parse_pages(pages: &Vec<Page>) -> (r: Result<Document, ParserError>)
        ensures
            match parsed(pages_view(pages@)) {
                Ok(document) => r matches Ok(d) && d@ == document,
                Err(e) => r matches Err(x) && x == e,
            },
    {
        let mut elements: Vec<Element> = Vec::new();
        assert(elements_view(elements@) =~= Seq::empty());
        let mut i: usize = 0;
        while i < pages.len()
            invariant
                i <= pages.len(),
                with_pages(pages_view(pages@), i as nat) == Ok::<Seq<ElementView>, ParserError>(
                    elements_view(elements@),
                ),
            decreases pages.len() - i,
        {
            let page = &pages[i];
            assert(pages_view(pages@)[i as int] == page@);
            let ghost before = elements_view(elements@);
            match append_images(&page.xobjects, &mut elements) {
                Ok(()) => {},
                Err(e) => {
                    proof {
                        lemma_pages_fail(pages_view(pages@), (i + 1) as nat, pages@.len());
                    }
                    return Err(e);
                },
            }
            let shown = match &page.operations {
                Some(list) => interpret_page(&page.fonts, list, &mut elements),
                None => Err(ParserError::Malformed),
            };
            match shown {
                Ok(()) => {},
                Err(e) => {
                    proof {
                        lemma_pages_fail(pages_view(pages@), (i + 1) as nat, pages@.len());
                    }
                    return Err(e);
                },
            }
            i += 1;
        }
        Ok(Document::new(elements))
    }

    /// Reads a PDF file into a document. The file is read with `lopdf`; the
    /// document is what [`Transformer::parse_pages`] makes of the pages read.
    /// A file that cannot be read at all is malformed, and so is one whose
    /// page tree runs in a circle. Only a classic file is read: another is
    /// malformed to this library, since nothing tells beforehand whether the
    /// reading of it would come to an end.
    pub fn parse(document: &Bytes) -> (r: Result<Document, ParserError>)
        ensures
            match parsed_file(contents(*document)) {
                Ok(view) => r matches Ok(d) && d@ == view,
                Err(e) => r matches Err(x) && x == e,
            },
    {
        if !is_classic(as_slice(document)) {
            return Err(ParserError::Malformed);
        }
        match load(document) {
            Ok(file) => match read_pages(&file) {
                Some(pages) => Transformer::parse_pages(&pages),
                None => Err(ParserError::Malformed),
            },
            Err(_) => Err(ParserError::Malformed),
        }
    }
}

proof fn lemma_pages_fail(pages: Seq<PageView>, at: nat, count: nat)
    requires
        at <= count <= pages.len(),
        with_pages(pages, at) is Err,
    ensures
        with_pages(pages, count) == with_pages(pages, at),
    decreases count,
{
    if at < count {
        lemma_pages_fail(pages, at, (count - 1) as nat);
    }
}

} // verus!
