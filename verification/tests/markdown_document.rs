use kreuzberg::document::{ElementKind, InternalDocument, InternalElement, UriKind};
use kreuzberg::frontmatter::{extract_frontmatter, metadata_entries};
use kreuzberg::markdown::MarkdownExtractor;
use kreuzberg::markdown_utils::{markdown_events, MdEvent, MdHeading, MdTag, MdTagEnd};
use kreuzberg::mdx::MdxExtractor;
use kreuzberg::types::{AnnotationKind, TextAnnotation};

fn events_of(text: &str) -> Vec<MdEvent> {
    markdown_events(text)
}

fn entries_of(content: &str) -> (Vec<(String, String)>, String) {
    let (_yaml, rest) = extract_frontmatter(content);
    (metadata_entries(content), rest)
}

fn markdown_doc(content: &str) -> InternalDocument {
    let (entries, rest) = entries_of(content);
    MarkdownExtractor::build_internal_document(&events_of(&rest), &entries)
}

fn mdx_doc(content: &str) -> InternalDocument {
    let (entries, rest) = entries_of(content);
    let (clean, blocks) = MdxExtractor::strip_mdx_syntax_collecting(&rest);
    MdxExtractor::build_internal_document(&events_of(&clean), &entries, &blocks)
}

fn kinds(doc: &InternalDocument) -> Vec<ElementKind> {
    doc.elements.iter().map(|e| e.kind).collect()
}

fn texts(doc: &InternalDocument) -> Vec<&str> {
    doc.elements.iter().map(|e| e.text.as_str()).collect()
}

fn ann(start: u32, end: u32, kind: AnnotationKind) -> TextAnnotation {
    TextAnnotation { start, end, kind }
}

fn elem<'a>(doc: &'a InternalDocument, kind: ElementKind) -> &'a InternalElement {
    doc.elements.iter().find(|e| e.kind == kind).expect("element of that kind")
}

#[test]
fn markdown_document_heading_and_paragraph_annotations() {
    let doc = markdown_doc("# Title *it*\n\nSome **bold** and `code` [link](http://x.com \"T\").\n");
    assert_eq!(doc.source_format, "markdown");
    assert_eq!(kinds(&doc), vec![ElementKind::Heading { level: 1 }, ElementKind::Paragraph]);
    assert_eq!(texts(&doc), vec!["Title it", "Some bold and code link."]);
    assert_eq!(doc.elements[0].annotations, vec![ann(6, 8, AnnotationKind::Italic)]);
    assert_eq!(
        doc.elements[1].annotations,
        vec![
            ann(5, 9, AnnotationKind::Bold),
            ann(14, 18, AnnotationKind::Code),
            ann(19, 23, AnnotationKind::Link { url: "http://x.com".to_string(), title: Some("T".to_string()) }),
        ]
    );
    assert_eq!(doc.uris.len(), 1);
    assert_eq!(doc.uris[0].url, "http://x.com");
    assert_eq!(doc.uris[0].label.as_deref(), Some("link"));
    assert_eq!(doc.uris[0].kind, UriKind::Hyperlink);
}

#[test]
fn markdown_document_link_kinds() {
    let doc = markdown_doc("[a](#sec) [b](mailto:x@y.z) [c](https://r.org) [](https://empty.org)\n");
    let kinds: Vec<UriKind> = doc.uris.iter().map(|u| u.kind).collect();
    assert_eq!(kinds, vec![UriKind::Anchor, UriKind::Email, UriKind::Hyperlink, UriKind::Hyperlink]);
    assert_eq!(doc.uris[3].label, None);
}

#[test]
fn markdown_document_lists() {
    let doc = markdown_doc("- a **b**\n- c\n\n1. x\n");
    assert_eq!(
        kinds(&doc),
        vec![
            ElementKind::ListStart { ordered: false },
            ElementKind::ListItem { ordered: false },
            ElementKind::ListItem { ordered: false },
            ElementKind::ListEnd,
            ElementKind::ListStart { ordered: true },
            ElementKind::ListItem { ordered: true },
            ElementKind::ListEnd,
        ]
    );
    assert_eq!(doc.elements[1].text, "a b");
    assert_eq!(doc.elements[1].annotations, vec![ann(2, 3, AnnotationKind::Bold)]);
    assert_eq!(doc.elements[5].text, "x");
}

#[test]
fn markdown_document_table_code_quote() {
    let doc = markdown_doc("| A | B |\n|---|---|\n| 1 | 2 |\n\n```rust\nfn main() {}\n```\n\n> q\n");
    assert_eq!(
        kinds(&doc),
        vec![
            ElementKind::Table,
            ElementKind::Code,
            ElementKind::QuoteStart,
            ElementKind::Paragraph,
            ElementKind::QuoteEnd,
        ]
    );
    assert_eq!(
        doc.elements[0].cells,
        vec![vec!["A".to_string(), "B".to_string()], vec!["1".to_string(), "2".to_string()]]
    );
    assert_eq!(doc.elements[1].text, "fn main() {}");
    assert_eq!(doc.elements[1].attribute("language"), Some("rust"));
    assert_eq!(doc.elements[3].text, "q");
}

#[test]
fn markdown_document_image_and_footnotes() {
    let doc = markdown_doc("![alt text](img.png)\n\nText[^1].\n\n[^1]: Note here.\n");
    assert_eq!(
        kinds(&doc),
        vec![
            ElementKind::Image { image_index: u32::MAX },
            ElementKind::FootnoteRef,
            ElementKind::Paragraph,
            ElementKind::FootnoteDefinition,
        ]
    );
    assert_eq!(texts(&doc), vec!["alt text", "1", "Text.", "Note here."]);
    assert_eq!(doc.elements[3].attribute("label"), Some("1"));
    assert_eq!(doc.uris.len(), 1);
    assert_eq!(doc.uris[0].url, "img.png");
    assert_eq!(doc.uris[0].label.as_deref(), Some("alt text"));
    assert_eq!(doc.uris[0].kind, UriKind::Image);
}

#[test]
fn markdown_document_frontmatter_block() {
    let doc = markdown_doc("---\ntitle: T\ncount: 3\n---\n# H\n");
    assert_eq!(kinds(&doc), vec![ElementKind::MetadataBlock, ElementKind::Heading { level: 1 }]);
    assert_eq!(doc.elements[0].attribute("title"), Some("T"));
    assert!(doc.elements[0].attribute("count").is_some());
}

#[test]
fn markdown_document_trimmed_paragraph_with_emoji() {
    let doc = markdown_doc("  **bold** \u{1F389} text  ");
    let p = elem(&doc, ElementKind::Paragraph);
    assert_eq!(p.text, "bold \u{1F389} text");
    for a in &p.annotations {
        assert!(a.start < a.end && a.end as usize <= p.text.len());
    }
    assert_eq!(p.annotations, vec![ann(0, 4, AnnotationKind::Bold)]);
}

#[test]
fn markdown_document_cjk_paragraph_with_formatting() {
    let doc = markdown_doc("# CJK\n\nこれは**太字**テスト");
    let p = elem(&doc, ElementKind::Paragraph);
    assert_eq!(p.text, "これは太字テスト");
    assert_eq!(p.annotations, vec![ann(9, 15, AnnotationKind::Bold)]);
}

#[test]
fn markdown_document_empty() {
    let doc = markdown_doc("");
    assert!(doc.elements.is_empty());
    assert!(doc.uris.is_empty());
}

#[test]
fn markdown_document_strikethrough_and_heading_code() {
    let doc = markdown_doc("## `x` ~~old~~\n");
    let h = &doc.elements[0];
    assert_eq!(h.kind, ElementKind::Heading { level: 2 });
    assert_eq!(h.text, "x old");
    assert_eq!(h.annotations, vec![ann(0, 1, AnnotationKind::Code), ann(2, 5, AnnotationKind::Strikethrough)]);
}

#[test]
fn mdx_document_links_labelled_by_title() {
    let doc = mdx_doc("See [docs](https://d.org \"Docs\") and [x](#a).\n");
    assert_eq!(doc.source_format, "mdx");
    assert_eq!(doc.uris.len(), 2);
    assert_eq!(doc.uris[0].label.as_deref(), Some("Docs"));
    assert_eq!(doc.uris[0].kind, UriKind::Hyperlink);
    assert_eq!(doc.uris[1].label, None);
    assert_eq!(doc.uris[1].kind, UriKind::Anchor);
}

#[test]
fn mdx_document_heading_code_not_annotated() {
    let doc = mdx_doc("# Use `cfg`\n\nRun `it`.\n");
    assert_eq!(doc.elements[0].text, "Use cfg");
    assert!(doc.elements[0].annotations.is_empty());
    assert_eq!(doc.elements[1].annotations, vec![ann(4, 6, AnnotationKind::Code)]);
}

#[test]
fn mdx_document_basic_and_jsx_blocks() {
    let doc = mdx_doc("import Chart from './Chart'\n\n# Hello World\n\n<Alert type=\"warning\">\nImportant message!\n</Alert>\n\nRegular text.\n");
    let all: Vec<&str> = texts(&doc);
    assert!(all.iter().any(|t| t.contains("Hello World")));
    assert!(all.iter().any(|t| t.contains("Important message")));
    assert!(all.iter().any(|t| t.contains("Regular text")));
    assert!(!all.iter().any(|t| t.contains("import")));
    let raws: Vec<&InternalElement> = doc.elements.iter().filter(|e| e.kind == ElementKind::RawBlock).collect();
    assert!(!raws.is_empty());
    assert!(raws.iter().all(|e| e.attribute("format") == Some("jsx")));
}

#[test]
fn mdx_document_with_frontmatter_and_tables() {
    let doc = mdx_doc("---\ntitle: My MDX Post\n---\n\n# Tables\n\n| Header 1 | Header 2 |\n|----------|----------|\n| Cell 1   | Cell 2   |\n");
    assert_eq!(doc.elements[0].kind, ElementKind::MetadataBlock);
    assert_eq!(doc.elements[0].attribute("title"), Some("My MDX Post"));
    let t = elem(&doc, ElementKind::Table);
    assert_eq!(t.cells[0].len(), 2);
    assert_eq!(t.cells[1], vec!["Cell 1".to_string(), "Cell 2".to_string()]);
}

#[test]
fn markdown_document_records_tables() {
    let doc = markdown_doc("| A |\n|---|\n| 1 |\n");
    assert_eq!(doc.tables.len(), 1);
    assert_eq!(doc.tables[0].cells, vec![vec!["A".to_string()], vec!["1".to_string()]]);
    assert_eq!(doc.tables[0].page_number, 1);
    assert!(doc.tables[0].markdown.starts_with("| A |"));
    assert_eq!(doc.elements.len(), 1);
    assert_eq!(doc.elements[0].kind, ElementKind::Table);
}

#[test]
fn markdown_bytes_give_metadata_entries_and_images() {
    let content = "---\ntitle: Doc\ncount: 3\n---\n# Heading\n\n![pic](data:image/png;base64,iVBORw0KGgo=)\n";
    let (doc, images) = MarkdownExtractor::extract_bytes(content.as_bytes(), "text/markdown");
    assert_eq!(doc.mime_type, "text/markdown");
    assert_eq!(doc.source_format, "markdown");
    assert_eq!(doc.metadata.title.as_deref(), Some("Doc"));
    assert_eq!(
        metadata_entries(content),
        vec![("title".to_string(), "Doc".to_string()), ("count".to_string(), "Number(3)".to_string())]
    );
    assert_eq!(images.len(), 1);
    assert!(texts(&doc).contains(&"Heading"));
}

#[test]
fn markdown_events_read_tables_and_strikethrough() {
    let events = markdown_events("| a |\n|---|\n| ~~b~~ |\n");
    assert!(events.contains(&MdEvent::Start(MdTag::Table)));
    assert!(events.contains(&MdEvent::Start(MdTag::Strikethrough)));
    assert!(events.contains(&MdEvent::Text("b".to_string())));
    assert_eq!(markdown_events("## H"), vec![
        MdEvent::Start(MdTag::Heading(MdHeading::H2)),
        MdEvent::Text("H".to_string()),
        MdEvent::End(MdTagEnd::Heading),
    ]);
}

#[test]
fn mdx_bytes_strip_imports_and_keep_front_matter_title() {
    let content = "---\ntitle: Page\n---\nimport X from './x'\n\n# Hello\n";
    let (doc, _images) = MdxExtractor::extract_bytes(content.as_bytes(), "text/mdx").expect("short text");
    assert_eq!(doc.mime_type, "text/mdx");
    assert_eq!(doc.source_format, "mdx");
    assert_eq!(doc.metadata.title.as_deref(), Some("Page"));
    assert!(texts(&doc).contains(&"Hello"));
    assert!(!texts(&doc).iter().any(|t| t.contains("import")));
}
