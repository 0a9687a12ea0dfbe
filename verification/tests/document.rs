use herdr_docs::document::{
    context_text, document_extension, document_format, drawn_lines, expand_tabs,
    format_for_extension, is_supported_extension, is_supported_path, loader_for, strip_html, Loader,
};

#[test]
fn supported_files_are_known_formats() {
    assert!(is_supported_extension("md"));
    assert!(is_supported_extension("htm"));
    assert!(is_supported_extension("ods"));
    assert!(!is_supported_extension("png"));
    assert!(!is_supported_extension(""));
    assert!(is_supported_path("/work/Report.PDF"));
    assert!(!is_supported_path("/work/image.png"));
    assert!(!is_supported_path("/work/Makefile"));
}

#[test]
fn extensions_are_lowered() {
    assert_eq!(document_extension("/work/B.Md"), "md");
    assert_eq!(document_extension("/work/.bashrc"), "");
    assert_eq!(document_extension("/work/archive.tar.GZ"), "gz");
}

#[test]
fn formats_are_named_by_extension() {
    assert_eq!(format_for_extension("pdf"), "PDF");
    assert_eq!(format_for_extension("docx"), "DOCX");
    assert_eq!(format_for_extension("htm"), "HTML");
    assert_eq!(format_for_extension("markdown"), "MARKDOWN");
    assert_eq!(format_for_extension(""), "TEXT");
    assert_eq!(format_for_extension("rs"), "RS");
    assert_eq!(document_format("/work/notes.MDX"), "MARKDOWN");
}

#[test]
fn loaders_follow_the_format() {
    assert_eq!(loader_for("/work/a.pdf"), Loader::Pdf);
    assert_eq!(loader_for("/work/a.EPUB"), Loader::Office);
    assert_eq!(loader_for("/work/a.html"), Loader::Html);
    assert_eq!(loader_for("/work/a.txt"), Loader::Text);
    assert_eq!(loader_for("/work/README"), Loader::Text);
}

#[test]
fn html_loses_its_tags_and_entities() {
    assert_eq!(strip_html("<p>a &amp; b&lt;</p>"), "a & b<");
    assert_eq!(strip_html("x&nbsp;y &quot;q&quot; &gt;"), "x y \"q\" >");
    assert_eq!(strip_html("&amp;lt;"), "&lt;");
    assert_eq!(strip_html("<a href=\"x\">link</a> text"), "link text");
}

#[test]
fn tabs_become_four_spaces() {
    assert_eq!(expand_tabs("a\tb\t"), "a    b    ");
    assert_eq!(expand_tabs("plain"), "plain");
}

#[test]
fn markdown_headings_are_marked() {
    let lines = drawn_lines("# Title\ntext\r\n## Part\n", true);
    assert_eq!(lines.len(), 3);
    assert_eq!(lines[0].text, "# Title");
    assert!(lines[0].heading);
    assert_eq!(lines[1].text, "text");
    assert!(!lines[1].heading);
    assert!(lines[2].heading);
    let plain = drawn_lines("# not a heading", false);
    assert_eq!(plain.len(), 1);
    assert!(!plain[0].heading);
}

#[test]
fn context_envelope_names_the_document() {
    assert_eq!(
        context_text("/work/docs/design.md", "MARKDOWN", "Body\n\n"),
        "<document>\ntitle: design.md\nsource: /work/docs/design.md\nformat: MARKDOWN\n\nBody\n</document>\n"
    );
    assert_eq!(
        context_text("/", "TEXT", "x"),
        "<document>\ntitle: document\nsource: /\nformat: TEXT\n\nx\n</document>\n"
    );
}
