use kreuzberg::orgmode::OrgModeExtractor;
use kreuzberg::types::AnnotationKind;

#[test]
fn test_cells_to_markdown_format() {
    let cells = vec![
        vec!["Name".to_string(), "Age".to_string()],
        vec!["Alice".to_string(), "30".to_string()],
        vec!["Bob".to_string(), "25".to_string()],
    ];

    let markdown = OrgModeExtractor::cells_to_markdown(&cells);
    assert!(markdown.contains("Name"));
    assert!(markdown.contains("Age"));
    assert!(markdown.contains("Alice"));
    assert!(markdown.contains("Bob"));
    assert!(markdown.contains("---"));
}

#[test]
fn test_emoji_and_cjk_with_inline_markup() {
    let (text, annotations) = OrgModeExtractor::parse_inline_markup("🎉 *太字* テスト");
    assert!(text.contains("🎉"), "Emoji preserved");
    assert!(text.contains("太字"), "Bold content present");
    assert!(text.contains("テスト"), "Trailing CJK preserved");
    assert!(!annotations.is_empty(), "Should have bold annotation");
}

#[test]
fn inline_markup_kinds_and_offsets() {
    let (text, anns) = OrgModeExtractor::parse_inline_markup("a *b* /c/ =d= [[http://x.y][link]]");
    assert_eq!(text, "a b c d link");
    assert_eq!(anns.len(), 4);
    assert_eq!(anns[0].kind, AnnotationKind::Bold);
    assert_eq!((anns[0].start, anns[0].end), (2, 3));
    assert_eq!(anns[1].kind, AnnotationKind::Italic);
    assert_eq!(anns[2].kind, AnnotationKind::Code);
    assert_eq!(anns[3].kind, AnnotationKind::Link { url: "http://x.y".to_string(), title: None });
    assert_eq!(&text[anns[3].start as usize..anns[3].end as usize], "link");
}

#[test]
fn inline_markup_needs_word_boundaries() {
    let (text, anns) = OrgModeExtractor::parse_inline_markup("2*3*4 and *open");
    assert_eq!(text, "2*3*4 and *open");
    assert!(anns.is_empty());
}

#[test]
fn org_links() {
    let s: Vec<char> = "[[https://example.com]] rest".chars().collect();
    assert_eq!(
        OrgModeExtractor::parse_org_link(&s, 0),
        Some(("https://example.com".to_string(), "https://example.com".to_string(), 23))
    );
    let t: Vec<char> = "x [[u][d]]".chars().collect();
    assert_eq!(OrgModeExtractor::parse_org_link(&t, 2), Some(("u".to_string(), "d".to_string(), 10)));
    assert_eq!(OrgModeExtractor::parse_org_link(&t, 0), None);
}

#[test]
fn footnote_references() {
    assert_eq!(
        OrgModeExtractor::find_footnote_references("a[fn:1] b [fn:] c [fn:note]"),
        vec!["1".to_string(), "note".to_string()]
    );
    assert!(OrgModeExtractor::find_footnote_references("[fn:open").is_empty());
}

#[test]
fn list_items() {
    assert!(OrgModeExtractor::is_org_list_item("  - item"));
    assert!(OrgModeExtractor::is_org_list_item("+ item"));
    assert!(OrgModeExtractor::is_org_list_item("12. item"));
    assert!(OrgModeExtractor::is_org_list_item("3) item"));
    assert!(!OrgModeExtractor::is_org_list_item("12345. item"));
    assert!(!OrgModeExtractor::is_org_list_item("-item"));
    assert!(OrgModeExtractor::is_org_ordered_item("1. x"));
    assert!(!OrgModeExtractor::is_org_ordered_item("- x"));
    assert_eq!(OrgModeExtractor::strip_list_prefix("  - item text"), "item text");
    assert_eq!(OrgModeExtractor::strip_list_prefix("10) ten"), "ten");
}

#[test]
fn image_urls() {
    assert!(OrgModeExtractor::is_image_url("file:img/Photo.PNG"));
    assert!(OrgModeExtractor::is_image_url("https://x.y/a.webp?size=2#top"));
    assert!(!OrgModeExtractor::is_image_url("https://x.y/page.html"));
}

#[test]
fn structural_starts() {
    assert!(OrgModeExtractor::is_structural_start("** Heading"));
    assert!(!OrgModeExtractor::is_structural_start("**bold** text"));
    assert!(OrgModeExtractor::is_structural_start("#+BEGIN_SRC"));
    assert!(OrgModeExtractor::is_structural_start("| a | b |"));
    assert!(OrgModeExtractor::is_structural_start(":PROPERTIES:"));
    assert!(OrgModeExtractor::is_structural_start("[fn:1] text"));
    assert!(!OrgModeExtractor::is_structural_start("plain text"));
}

use kreuzberg::document::{ElementKind, RelKind, RelTarget, UriKind};

#[test]
fn test_src_block_lowercase_produces_code_element() {
    let org_text = "#+begin_src python\ndef hello():\n    print(\"Hello, World!\")\n#+end_src\n";
    let doc = OrgModeExtractor::build_internal_document(org_text);

    let code_elements: Vec<_> = doc
        .elements
        .iter()
        .filter(|e| matches!(e.kind, ElementKind::Code))
        .collect();
    assert!(
        !code_elements.is_empty(),
        "Should produce Code element for lowercase #+begin_src block"
    );
    let code = &code_elements[0];
    assert!(
        code.text.contains("def hello():"),
        "Code element should contain the function definition"
    );
    let lang = code.attribute("language");
    assert_eq!(lang, Some("python"), "Language should be python");
}

#[test]
fn test_src_block_uppercase_produces_code_element() {
    let org_text = "#+BEGIN_SRC bash\necho \"hello\"\n#+END_SRC\n";
    let doc = OrgModeExtractor::build_internal_document(org_text);

    let code_elements: Vec<_> = doc
        .elements
        .iter()
        .filter(|e| matches!(e.kind, ElementKind::Code))
        .collect();
    assert!(
        !code_elements.is_empty(),
        "Should produce Code element for uppercase #+BEGIN_SRC block"
    );
    assert!(code_elements[0].text.contains("echo"));
}

#[test]
fn test_example_block_produces_code_element() {
    let org_text = "#+BEGIN_EXAMPLE\nSome example text\nSecond line\n#+END_EXAMPLE\n";
    let doc = OrgModeExtractor::build_internal_document(org_text);

    let code_elements: Vec<_> = doc
        .elements
        .iter()
        .filter(|e| matches!(e.kind, ElementKind::Code))
        .collect();
    assert!(
        !code_elements.is_empty(),
        "Should produce Code element for #+BEGIN_EXAMPLE block"
    );
    assert!(
        code_elements[0].text.contains("Some example text"),
        "Code element should contain example content"
    );
    let lang = code_elements[0].attribute("language");
    assert!(lang.is_none(), "EXAMPLE blocks should not have a language attribute");
}

#[test]
fn test_lowercase_example_block_produces_code_element() {
    let org_text = "#+begin_example\nExample content\n#+end_example\n";
    let doc = OrgModeExtractor::build_internal_document(org_text);

    let code_elements: Vec<_> = doc
        .elements
        .iter()
        .filter(|e| matches!(e.kind, ElementKind::Code))
        .collect();
    assert!(
        !code_elements.is_empty(),
        "Should produce Code element for lowercase #+begin_example block"
    );
}

#[test]
fn org_document_structure() {
    let org_text = "#+TITLE: My Doc\n#+author: Ann\n\n* TODO Plan :work:home:\n:PROPERTIES:\n:ID: 42\n:END:\n| a | b |\n|---+---|\n| 1 | 2 |\n- one\n  more\n- two\n\nSee [[https://x.org][site]] and [fn:n1] [[#sec]].\nnext line\n[fn:n1] The note\n";
    let doc = OrgModeExtractor::build_internal_document(org_text);
    assert_eq!(doc.source_format, "orgmode");
    let kinds: Vec<ElementKind> = doc.elements.iter().map(|e| e.kind).collect();
    assert_eq!(
        kinds,
        vec![
            ElementKind::MetadataBlock,
            ElementKind::Heading { level: 1 },
            ElementKind::MetadataBlock,
            ElementKind::Table,
            ElementKind::ListStart { ordered: false },
            ElementKind::ListItem { ordered: false },
            ElementKind::ListItem { ordered: false },
            ElementKind::ListEnd,
            ElementKind::Paragraph,
            ElementKind::FootnoteRef,
            ElementKind::FootnoteDefinition,
        ]
    );
    assert_eq!(
        doc.elements[0].attributes,
        vec![("TITLE".to_string(), "My Doc".to_string()), ("AUTHOR".to_string(), "Ann".to_string())]
    );
    assert_eq!(doc.elements[1].text, "Plan");
    assert_eq!(doc.elements[2].attributes, vec![("ID".to_string(), "42".to_string())]);
    assert_eq!(
        doc.elements[3].cells,
        vec![vec!["a".to_string(), "b".to_string()], vec!["1".to_string(), "2".to_string()]]
    );
    assert_eq!(doc.elements[5].text, "one more");
    assert_eq!(doc.elements[8].text, "See site and [fn:n1] #sec. next line");
    assert_eq!(doc.elements[9].text, "[fn:n1]");
    assert_eq!(doc.elements[10].text, "The note");
    assert_eq!(doc.uris.len(), 2);
    assert_eq!(doc.uris[0].url, "https://x.org");
    assert_eq!(doc.uris[1].url, "#sec");
    assert_eq!(doc.uris[0].label.as_deref(), Some("site"));
    assert_eq!(doc.uris[0].kind, UriKind::Hyperlink);
    assert_eq!(doc.relationships.len(), 1);
    assert_eq!(doc.relationships[0].source, 8);
    assert_eq!(doc.relationships[0].target, RelTarget::Key("sec".to_string()));
    assert_eq!(doc.relationships[0].kind, RelKind::InternalLink);
}

#[test]
fn org_image_line_and_quote() {
    let doc = OrgModeExtractor::build_internal_document("[[file:pic.png][A pic]]\n#+BEGIN_QUOTE\n q1\n\n q2\n#+END_QUOTE\n");
    let kinds: Vec<ElementKind> = doc.elements.iter().map(|e| e.kind).collect();
    assert_eq!(
        kinds,
        vec![
            ElementKind::Image { image_index: u32::MAX },
            ElementKind::QuoteStart,
            ElementKind::Paragraph,
            ElementKind::Paragraph,
            ElementKind::QuoteEnd
        ]
    );
    assert_eq!(doc.elements[0].text, "A pic");
    assert_eq!(doc.uris[0].kind, UriKind::Image);
    assert_eq!(doc.uris[0].url, "file:pic.png");
}
