//! Images as base64 text, wrapped for the place they go to.
//!
//! A picture is turned into base64 once and then laid into one of a few notations:
//! the bare text, a Markdown page, an HTML page, a JSON record, or a reference
//! that takes the place of a file name in running text.

use vstd::prelude::*;
use crate::base64::{encode, encoded};
use crate::chars::{chars_of, decimal, extend_chars, push_decimal, same_text, string_of};
use crate::references::{replace_all, replaced};

verus! {

/// The number of characters that a preview of base64 text shows at most.
pub const PREVIEW_LEN: usize = 100;

/// The notation in which a converted image is written to a file.
#[derive(Debug, Clone, Copy, PartialEq, Eq, Structural)]
pub enum ExportFormat {
    /// The base64 text and nothing else.
    Plain,
    /// A Markdown page that shows the image and lists its text.
    Markdown,
    /// An HTML page that shows the image and lists its text.
    Html,
    /// A JSON record of the image.
    Json,
}

/// The notation in which an image takes the place of a reference in text.
#[derive(Debug, Clone, Copy, PartialEq, Eq, Structural)]
pub enum ImageOutputFormat {
    /// A `data:` address.
    DataUrl,
    /// A Markdown image with a `data:` address.
    Markdown,
    /// An HTML `img` element with a `data:` address.
    Html,
}

/// A converted image: its base64 text, the content of the file it goes to,
/// and the start of the text for showing.
#[derive(Debug, PartialEq)]
pub struct ImageExport {
    pub base64: String,
    pub content: String,
    pub preview: String,
}

/// The notation that goes with the extension of an output file: `md`, `html`
/// and `json` have their own, every other extension gets the bare text.
pub open spec fn format_for(extension: Seq<char>) -> ExportFormat {
    if extension == "md"@ {
        ExportFormat::Markdown
    } else if extension == "html"@ {
        ExportFormat::Html
    } else if extension == "json"@ {
        ExportFormat::Json
    } else {
        ExportFormat::Plain
    }
}

/// The `data:` address of an image.
pub open spec fn data_url(image_type: Seq<char>, base64: Seq<char>) -> Seq<char> {
    "data:image/"@ + image_type + ";base64,"@ + base64
}

/// The Markdown page of a converted image.
pub open spec fn markdown_page(file_name: Seq<char>, image_type: Seq<char>, base64: Seq<char>)
    -> Seq<char> {
    "# Converted Image\n\n!["@ + file_name + "]("@ + data_url(image_type, base64)
        + ")\n\nBase64 Data:\n```\n"@ + base64 + "\n```\n"@
}

/// The HTML page of a converted image.
pub open spec fn html_page(file_name: Seq<char>, image_type: Seq<char>, base64: Seq<char>) -> Seq<
    char,
> {
    "<!DOCTYPE html>\n<html>\n<head>\n    <title>Converted Image</title>\n</head>\n<body>\n    <h1>Converted Image</h1>\n    <img src=\""@
        + data_url(image_type, base64) + "\" alt=\""@ + file_name
        + "\" style=\"max-width: 100%; height: auto;\">\n    \n    <h2>Base64 Data</h2>\n    <textarea rows=\"10\" cols=\"80\" readonly>"@
        + base64 + "</textarea>\n</body>\n</html>"@
}

/// The JSON record of a converted image.
pub open spec fn json_record(
    file_name: Seq<char>,
    image_type: Seq<char>,
    size: nat,
    base64: Seq<char>,
) -> Seq<char> {
    "{\n  \"image\": {\n    \"filename\": \""@ + file_name + "\",\n    \"type\": \""@ + image_type
        + "\",\n    \"size_bytes\": "@ + decimal(size) + ",\n    \"base64\": \""@ + base64
        + "\",\n    \"data_url\": \""@ + data_url(image_type, base64) + "\"\n  }\n}"@
}

/// The content of the file that a converted image goes to.
pub open spec fn export_content(
    format: ExportFormat,
    file_name: Seq<char>,
    image_type: Seq<char>,
    size: nat,
    base64: Seq<char>,
) -> Seq<char> {
    match format {
        ExportFormat::Plain => base64,
        ExportFormat::Markdown => markdown_page(file_name, image_type, base64),
        ExportFormat::Html => html_page(file_name, image_type, base64),
        ExportFormat::Json => json_record(file_name, image_type, size, base64),
    }
}

/// The start of a text: its first hundred characters, or all of it.
pub open spec fn preview_of(text: Seq<char>) -> Seq<char> {
    if text.len() <= PREVIEW_LEN {
        text
    } else {
        text.take(PREVIEW_LEN as int)
    }
}

/// An image in the notation in which it replaces a reference in text. A title
/// or a description that is not given is left empty.
pub open spec fn embedded(
    format: ImageOutputFormat,
    image_type: Seq<char>,
    base64: Seq<char>,
    title: Option<Seq<char>>,
    alt: Option<Seq<char>>,
) -> Seq<char> {
    let title = match title {
        Some(t) => t,
        None => Seq::empty(),
    };
    let alt = match alt {
        Some(a) => a,
        None => Seq::empty(),
    };
    match format {
        ImageOutputFormat::DataUrl => data_url(image_type, base64),
        ImageOutputFormat::Markdown => "!["@ + alt + "]("@ + data_url(image_type, base64) + " \""@
            + title + "\")"@,
        ImageOutputFormat::Html => "<img src=\""@ + data_url(image_type, base64) + "\" alt=\""@
            + alt + "\" title=\""@ + title + "\">"@,
    }
}

/// The place in written text where an image refers to its file or address.
pub open spec fn image_target(target: Seq<char>) -> Seq<char> {
    "]("@ + target + " \""@
}

/// Written text in which the image of the given file name is embedded: where
/// the text refers to the file, it holds the `data:` address of the bytes.
pub open spec fn with_embedded(text: Seq<char>, name: Seq<char>, data: Seq<u8>) -> Seq<char> {
    replaced(text, image_target(name), image_target(data_url("png"@, encoded(data))))
}

/// Embeds an image in written text in place of the reference to its file.
pub fn embed_in_text(text: &str, name: &str, data: &[u8]) -> (r: String)
    ensures
        r@ == with_embedded(text@, name@, data@),
{
    let base64 = encode(data);
    let mut from: Vec<char> = Vec::new();
    extend_chars(&mut from, "](");
    extend_chars(&mut from, name);
    extend_chars(&mut from, " \"");
    assert(from@ =~= image_target(name@));
    let mut to: Vec<char> = Vec::new();
    extend_chars(&mut to, "](");
    push_data_url(&mut to, "png", base64.as_str());
    extend_chars(&mut to, " \"");
    assert(to@ =~= image_target(data_url("png"@, encoded(data@))));
    let from = string_of(from.as_slice());
    let to = string_of(to.as_slice());
    replace_all(text, from.as_str(), to.as_str())
}

/// Written text after one of its images was placed, and whether the image is
/// yet to be handed out under its file name. An image that is to stand in
/// the text is embedded and not handed out; another stays a reference to its
/// file and is handed out.
pub open spec fn placed(text: Seq<char>, name: Seq<char>, data: Seq<u8>, inline: bool) -> (
    Seq<char>,
    bool,
) {
    if inline {
        (with_embedded(text, name, data), false)
    } else {
        (text, true)
    }
}

/// Places one image of written text. `inline` is the answer of the one who
/// takes the images to the question whether they are to stand in the text.
pub fn place_image(text: String, name: &str, data: &[u8], inline: bool) -> (r: (String, bool))
    ensures
        r.0@ == placed(text@, name@, data@, inline).0,
        r.1 == placed(text@, name@, data@, inline).1,
{
    if inline {
        (embed_in_text(text.as_str(), name, data), false)
    } else {
        (text, true)
    }
}

/// Chooses the notation for an output file by its extension.
pub fn export_format(extension: &str) -> (format: ExportFormat)
    ensures
        format == format_for(extension@),
{
    if same_text(extension, "md") {
        ExportFormat::Markdown
    } else if same_text(extension, "html") {
        ExportFormat::Html
    } else if same_text(extension, "json") {
        ExportFormat::Json
    } else {
        ExportFormat::Plain
    }
}

/// Appends the `data:` address of an image.
fn push_data_url(out: &mut Vec<char>, image_type: &str, base64: &str)
    ensures
        final(out)@ == old(out)@ + data_url(image_type@, base64@),
{
    extend_chars(out, "data:image/");
    extend_chars(out, image_type);
    extend_chars(out, ";base64,");
    extend_chars(out, base64);
    assert(out@ =~= old(out)@ + data_url(image_type@, base64@));
}

/// Lays base64 text into the content of an output file.
pub fn render_export(
    format: ExportFormat,
    file_name: &str,
    image_type: &str,
    size: usize,
    base64: &str,
) -> (content: String)
    ensures
        content@ == export_content(format, file_name@, image_type@, size as nat, base64@),
{
    let mut out: Vec<char> = Vec::new();
    match format {
        ExportFormat::Plain => {
            extend_chars(&mut out, base64);
            assert(out@ =~= base64@);
        },
        ExportFormat::Markdown => {
            extend_chars(&mut out, "# Converted Image\n\n![");
            extend_chars(&mut out, file_name);
            extend_chars(&mut out, "](");
            push_data_url(&mut out, image_type, base64);
            extend_chars(&mut out, ")\n\nBase64 Data:\n```\n");
            extend_chars(&mut out, base64);
            extend_chars(&mut out, "\n```\n");
            assert(out@ =~= markdown_page(file_name@, image_type@, base64@));
        },
        ExportFormat::Html => {
            extend_chars(
                &mut out,
                "<!DOCTYPE html>\n<html>\n<head>\n    <title>Converted Image</title>\n</head>\n<body>\n    <h1>Converted Image</h1>\n    <img src=\"",
            );
            push_data_url(&mut out, image_type, base64);
            extend_chars(&mut out, "\" alt=\"");
            extend_chars(&mut out, file_name);
            extend_chars(
                &mut out,
                "\" style=\"max-width: 100%; height: auto;\">\n    \n    <h2>Base64 Data</h2>\n    <textarea rows=\"10\" cols=\"80\" readonly>",
            );
            extend_chars(&mut out, base64);
            extend_chars(&mut out, "</textarea>\n</body>\n</html>");
            assert(out@ =~= html_page(file_name@, image_type@, base64@));
        },
        ExportFormat::Json => {
            extend_chars(&mut out, "{\n  \"image\": {\n    \"filename\": \"");
            extend_chars(&mut out, file_name);
            extend_chars(&mut out, "\",\n    \"type\": \"");
            extend_chars(&mut out, image_type);
            extend_chars(&mut out, "\",\n    \"size_bytes\": ");
            push_decimal(&mut out, size as u64);
            extend_chars(&mut out, ",\n    \"base64\": \"");
            extend_chars(&mut out, base64);
            extend_chars(&mut out, "\",\n    \"data_url\": \"");
            push_data_url(&mut out, image_type, base64);
            extend_chars(&mut out, "\"\n  }\n}");
            assert(out@ =~= json_record(file_name@, image_type@, size as nat, base64@));
        },
    }
    string_of(out.as_slice())
}

/// The start of a text, for showing.
pub fn preview(text: &str) -> (start: String)
    ensures
        start@ == preview_of(text@),
{
    let chars = chars_of(text);
    if chars.len() <= PREVIEW_LEN {
        string_of(chars.as_slice())
    } else {
        let mut head: Vec<char> = Vec::new();
        let mut i: usize = 0;
        while i < PREVIEW_LEN
            invariant
                i <= PREVIEW_LEN < chars.len(),
                head@ == chars@.take(i as int),
            decreases PREVIEW_LEN - i,
        {
            head.push(chars[i]);
            assert(chars@.take(i + 1) =~= chars@.take(i as int).push(chars@[i as int]));
            i += 1;
        }
        string_of(head.as_slice())
    }
}

/// Converts the bytes of an image: encodes them, and lays the text into the
/// content of an output file of the given notation. `file_name` and
/// `image_type` are what the pages and the record name the image by.
pub fn convert_image_to_base64(
    data: &[u8],
    file_name: &str,
    image_type: &str,
    format: ExportFormat,
) -> (export: ImageExport)
    ensures
        export.base64@ == encoded(data@),
        export.content@ == export_content(
            format,
            file_name@,
            image_type@,
            data@.len(),
            encoded(data@),
        ),
        export.preview@ == preview_of(encoded(data@)),
{
    let base64 = encode(data);
    let content = render_export(format, file_name, image_type, data.len(), base64.as_str());
    let preview = preview(base64.as_str());
    ImageExport { base64, content, preview }
}

/// Lays base64 text into the notation in which an image replaces a reference
/// in text.
pub fn embed_image(
    format: ImageOutputFormat,
    image_type: &str,
    base64: &str,
    title: Option<&str>,
    alt: Option<&str>,
) -> (text: String)
    ensures
        text@ == embedded(
            format,
            image_type@,
            base64@,
            match title {
                Some(t) => Some(t@),
                None => None,
            },
            match alt {
                Some(a) => Some(a@),
                None => None,
            },
        ),
{
    let title: &str = match title {
        Some(t) => t,
        None => "",
    };
    let alt: &str = match alt {
        Some(a) => a,
        None => "",
    };
    proof {
        reveal_strlit("");
    }
    let mut out: Vec<char> = Vec::new();
    match format {
        ImageOutputFormat::DataUrl => {
            push_data_url(&mut out, image_type, base64);
            assert(out@ =~= data_url(image_type@, base64@));
        },
        ImageOutputFormat::Markdown => {
            extend_chars(&mut out, "![");
            extend_chars(&mut out, alt);
            extend_chars(&mut out, "](");
            push_data_url(&mut out, image_type, base64);
            extend_chars(&mut out, " \"");
            extend_chars(&mut out, title);
            extend_chars(&mut out, "\")");
            assert(out@ =~= "!["@ + alt@ + "]("@ + data_url(image_type@, base64@) + " \""@ + title@
                + "\")"@);
        },
        ImageOutputFormat::Html => {
            extend_chars(&mut out, "<img src=\"");
            push_data_url(&mut out, image_type, base64);
            extend_chars(&mut out, "\" alt=\"");
            extend_chars(&mut out, alt);
            extend_chars(&mut out, "\" title=\"");
            extend_chars(&mut out, title);
            extend_chars(&mut out, "\">");
            assert(out@ =~= "<img src=\""@ + data_url(image_type@, base64@) + "\" alt=\""@ + alt@
                + "\" title=\""@ + title@ + "\">"@);
        },
    }
    string_of(out.as_slice())
}

} // verus!
