use shiva::references::{
    apply_replacements, image_references, kinds, pattern, reference_of, references_of, replace_all, resolve_path,
    Capture, ImageReference, ReferenceKind,
};

fn reference(full: &str, path: &str, alt: Option<&str>) -> ImageReference {
    ImageReference { full_match: full.to_string(), path: path.to_string(), alt: alt.map(|a| a.to_string()) }
}

fn capture(full: &str, first: Option<&str>, second: Option<&str>) -> Capture {
    Capture {
        full: full.to_string(),
        first: first.map(|s| s.to_string()),
        second: second.map(|s| s.to_string()),
    }
}

#[test]
fn kinds_are_gone_through_in_order() {
    assert_eq!(kinds(), vec![ReferenceKind::Path, ReferenceKind::Markdown, ReferenceKind::Html]);
    assert_eq!(pattern(ReferenceKind::Path), r"([^\s]+\.(png|jpg|jpeg|gif|svg|bmp|webp))");
    assert_eq!(
        pattern(ReferenceKind::Markdown),
        r"!\[([^\]]*)\]\(([^)]+\.(png|jpg|jpeg|gif|svg|bmp|webp))\)"
    );
    assert_eq!(
        pattern(ReferenceKind::Html),
        r#"<img[^>]+src="([^"]+\.(png|jpg|jpeg|gif|svg|bmp|webp))"[^>]*>"#
    );
}

#[test]
fn bare_paths_are_found() {
    assert_eq!(
        image_references("see pictures/cat.png and dog.jpeg, not notes.txt", ReferenceKind::Path),
        vec![reference("pictures/cat.png", "pictures/cat.png", None), reference("dog.jpeg", "dog.jpeg", None)]
    );
    assert_eq!(image_references("nothing here", ReferenceKind::Path), vec![]);
    assert_eq!(image_references("", ReferenceKind::Path), vec![]);
}

#[test]
fn markdown_images_are_found_with_their_description() {
    assert_eq!(
        image_references("a ![A cat](img/cat.png) b ![](x.webp)", ReferenceKind::Markdown),
        vec![
            reference("![A cat](img/cat.png)", "img/cat.png", Some("A cat")),
            reference("![](x.webp)", "x.webp", Some("")),
        ]
    );
    assert_eq!(image_references("[A cat](img/cat.png)", ReferenceKind::Markdown), vec![]);
}

#[test]
fn html_images_are_found() {
    assert_eq!(
        image_references(r#"<p><img class="c" src="a/b.gif" alt="x"></p>"#, ReferenceKind::Html),
        vec![reference(r#"<img class="c" src="a/b.gif" alt="x">"#, "a/b.gif", None)]
    );
    assert_eq!(image_references(r#"<img src="a/b.pdf">"#, ReferenceKind::Html), vec![]);
}

#[test]
fn a_match_is_read_by_its_kind() {
    let found = capture("full", Some("one"), Some("two"));
    assert_eq!(reference_of(ReferenceKind::Path, &found), Some(reference("full", "one", None)));
    assert_eq!(reference_of(ReferenceKind::Html, &found), Some(reference("full", "one", None)));
    assert_eq!(reference_of(ReferenceKind::Markdown, &found), Some(reference("full", "two", Some("one"))));
    let partial = capture("full", None, Some("two"));
    assert_eq!(reference_of(ReferenceKind::Path, &partial), None);
    assert_eq!(reference_of(ReferenceKind::Markdown, &partial), Some(reference("full", "two", None)));
    let bare = capture("full", Some("one"), None);
    assert_eq!(reference_of(ReferenceKind::Markdown, &bare), None);
    assert_eq!(
        references_of(ReferenceKind::Markdown, &vec![found, bare, partial]),
        vec![reference("full", "two", Some("one")), reference("full", "two", None)]
    );
}

#[test]
fn relative_paths_start_from_the_base() {
    assert_eq!(resolve_path(Some("docs"), "a.png", true), "docs/a.png");
    assert_eq!(resolve_path(Some("docs"), "/a.png", false), "/a.png");
    assert_eq!(resolve_path(None, "a.png", true), "a.png");
    assert_eq!(resolve_path(None, "/a.png", false), "/a.png");
    assert_eq!(resolve_path(Some(""), "a.png", true), "/a.png");
}

#[test]
fn every_occurrence_is_replaced() {
    assert_eq!(replace_all("a.png b.png a.png", "a.png", "X"), "X b.png X");
    assert_eq!(replace_all("aaa", "aa", "b"), "ba");
    assert_eq!(replace_all("abc", "abcd", "x"), "abc");
    assert_eq!(replace_all("abc", "abc", ""), "");
    assert_eq!(replace_all("", "a", "b"), "");
    assert_eq!(replace_all("aXa", "X", "XX"), "aXXa");
    assert_eq!(replace_all("ab", "", "-"), "-a-b-");
    assert_eq!(replace_all("", "", "-"), "-");
}

#[test]
fn replacing_agrees_with_the_standard_library() {
    let texts = ["", "a", "abcabc", "aaaa", "\u{e9}t\u{e9}", "x.png y.png", "ababab"];
    let froms = ["", "a", "ab", "aa", "abc", "\u{e9}", ".png", "bab", "zz"];
    let tos = ["", "a", "-", "long text", "ab"];
    for text in texts {
        for from in froms {
            for to in tos {
                assert_eq!(replace_all(text, from, to), text.replace(from, to));
            }
        }
    }
}

#[test]
fn replacements_are_made_one_after_the_other() {
    let pairs = vec![("a".to_string(), "b".to_string()), ("b".to_string(), "c".to_string())];
    assert_eq!(apply_replacements("aba", &pairs), "ccc");
    assert_eq!(apply_replacements("aba", &vec![]), "aba");
    let pairs = vec![("cat.png".to_string(), "data:image/png;base64,AAAA".to_string())];
    assert_eq!(
        apply_replacements("see cat.png and cat.png", &pairs),
        "see data:image/png;base64,AAAA and data:image/png;base64,AAAA"
    );
}

#[test]
fn references_with_an_outcome_are_replaced() {
    let references = vec![
        reference("a.png", "a.png", None),
        reference("![x](b.png)", "b.png", Some("x")),
        reference("c.png", "c.png", None),
        reference("d.png", "d.png", None),
    ];
    let outcomes = vec![Some("A".to_string()), None, Some("C".to_string())];
    assert_eq!(
        shiva::references::replacements_of(&references, &outcomes),
        vec![("a.png".to_string(), "A".to_string()), ("c.png".to_string(), "C".to_string())]
    );
    assert_eq!(shiva::references::replacements_of(&references, &vec![]), vec![]);
    assert_eq!(shiva::references::replacements_of(&vec![], &outcomes), vec![]);
}
