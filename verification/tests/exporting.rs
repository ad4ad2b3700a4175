use shiva::export::{
    convert_image_to_base64, embed_image, export_format, preview, render_export, ExportFormat, ImageOutputFormat,
};
use shiva::model::DocumentType;

#[test]
fn the_extension_chooses_the_notation() {
    assert_eq!(export_format("txt"), ExportFormat::Plain);
    assert_eq!(export_format("md"), ExportFormat::Markdown);
    assert_eq!(export_format("html"), ExportFormat::Html);
    assert_eq!(export_format("json"), ExportFormat::Json);
    assert_eq!(export_format(""), ExportFormat::Plain);
    assert_eq!(export_format("MD"), ExportFormat::Plain);
    assert_eq!(export_format("htm"), ExportFormat::Plain);
    assert_eq!(export_format("png"), ExportFormat::Plain);
}

#[test]
fn plain_export_is_the_bare_text() {
    assert_eq!(render_export(ExportFormat::Plain, "a.png", "png", 3, "Zm9v"), "Zm9v");
}

#[test]
fn markdown_export_shows_the_image_and_lists_its_text() {
    assert_eq!(
        render_export(ExportFormat::Markdown, "a.png", "png", 3, "Zm9v"),
        "# Converted Image\n\n![a.png](data:image/png;base64,Zm9v)\n\nBase64 Data:\n```\nZm9v\n```\n"
    );
}

#[test]
fn html_export_is_a_whole_page() {
    let expected = r#"<!DOCTYPE html>
<html>
<head>
    <title>Converted Image</title>
</head>
<body>
    <h1>Converted Image</h1>
    <img src="data:image/jpeg;base64,Zm9v" alt="photo.jpeg" style="max-width: 100%; height: auto;">
    
    <h2>Base64 Data</h2>
    <textarea rows="10" cols="80" readonly>Zm9v</textarea>
</body>
</html>"#;
    assert_eq!(render_export(ExportFormat::Html, "photo.jpeg", "jpeg", 3, "Zm9v"), expected);
}

#[test]
fn json_export_is_a_record() {
    let expected = r#"{
  "image": {
    "filename": "a.png",
    "type": "png",
    "size_bytes": 1234567,
    "base64": "Zm9v",
    "data_url": "data:image/png;base64,Zm9v"
  }
}"#;
    assert_eq!(render_export(ExportFormat::Json, "a.png", "png", 1234567, "Zm9v"), expected);
    assert!(render_export(ExportFormat::Json, "", "", 0, "").contains("\"size_bytes\": 0,"));
    assert!(render_export(ExportFormat::Json, "", "", 10, "").contains("\"size_bytes\": 10,"));
}

#[test]
fn a_preview_shows_a_hundred_characters_at_most() {
    assert_eq!(preview(""), "");
    assert_eq!(preview("abc"), "abc");
    let exactly = "x".repeat(100);
    assert_eq!(preview(&exactly), exactly);
    let longer = format!("{}yz", exactly);
    assert_eq!(preview(&longer), exactly);
}

#[test]
fn an_image_is_converted_in_one_go() {
    let export = convert_image_to_base64(b"foobar", "pic.gif", "gif", ExportFormat::Markdown);
    assert_eq!(export.base64, "Zm9vYmFy");
    assert_eq!(
        export.content,
        "# Converted Image\n\n![pic.gif](data:image/gif;base64,Zm9vYmFy)\n\nBase64 Data:\n```\nZm9vYmFy\n```\n"
    );
    assert_eq!(export.preview, "Zm9vYmFy");
    let data = vec![0u8; 300];
    let export = convert_image_to_base64(&data, "z.png", "png", ExportFormat::Json);
    assert_eq!(export.base64.len(), 400);
    assert_eq!(export.preview, "A".repeat(100));
    assert!(export.content.contains("\"size_bytes\": 300,"));
    let export = convert_image_to_base64(&data, "z.png", "png", ExportFormat::Plain);
    assert_eq!(export.content, export.base64);
}

#[test]
fn an_image_is_embedded_in_place_of_a_reference() {
    assert_eq!(
        embed_image(ImageOutputFormat::DataUrl, "png", "Zm9v", Some("t"), Some("a")),
        "data:image/png;base64,Zm9v"
    );
    assert_eq!(
        embed_image(ImageOutputFormat::Markdown, "png", "Zm9v", Some("Title"), Some("Alt")),
        "![Alt](data:image/png;base64,Zm9v \"Title\")"
    );
    assert_eq!(
        embed_image(ImageOutputFormat::Markdown, "png", "Zm9v", None, None),
        "![](data:image/png;base64,Zm9v \"\")"
    );
    assert_eq!(
        embed_image(ImageOutputFormat::Html, "svg", "Zm9v", None, Some("Alt")),
        "<img src=\"data:image/svg;base64,Zm9v\" alt=\"Alt\" title=\"\">"
    );
}

#[test]
fn formats_are_known_by_their_extension() {
    assert_eq!(DocumentType::from_extension("txt"), Some(DocumentType::Text));
    assert_eq!(DocumentType::from_extension("pdf"), Some(DocumentType::Pdf));
    assert_eq!(DocumentType::from_extension("md"), None);
    assert_eq!(DocumentType::from_extension(""), None);
    assert_eq!(DocumentType::from_extension("PDF"), None);
    assert_eq!(DocumentType::Text.extension(), "txt");
    assert_eq!(DocumentType::Pdf.extension(), "pdf");
    assert_eq!(DocumentType::supported_extensions(), vec!["txt", "pdf"]);
    for extension in DocumentType::supported_extensions() {
        assert_eq!(DocumentType::from_extension(extension).unwrap().extension(), extension);
    }
}

#[test]
fn an_image_is_embedded_in_written_text() {
    let text = "a ![x](image0.png \"t\") b ![y](image1.png \"u\") image0.png";
    assert_eq!(
        shiva::export::embed_in_text(text, "image0.png", b"foo"),
        "a ![x](data:image/png;base64,Zm9v \"t\") b ![y](image1.png \"u\") image0.png"
    );
    assert_eq!(shiva::export::embed_in_text(text, "image2.png", b"foo"), text);
    assert_eq!(
        shiva::export::embed_in_text(text, "image1.png", b""),
        "a ![x](image0.png \"t\") b ![y](data:image/png;base64, \"u\") image0.png"
    );
}

#[test]
fn an_image_is_placed_by_the_answer_of_its_taker() {
    let text = "![alt](image0.png \"title\")".to_string();
    let (placed, offer) = shiva::export::place_image(text.clone(), "image0.png", b"foo", true);
    assert_eq!(placed, "![alt](data:image/png;base64,Zm9v \"title\")");
    assert!(!offer);
    let (placed, offer) = shiva::export::place_image(text.clone(), "image0.png", b"foo", false);
    assert_eq!(placed, text);
    assert!(offer);
}
