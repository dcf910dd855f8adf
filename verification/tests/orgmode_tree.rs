use kreuzberg::orgmode::OrgModeExtractor;
use kreuzberg::orgmode::tree::OrgTree;
use org::Org;

/// The library's tree for a parsed Org document.
fn tree_of(o: &Org) -> OrgTree {
    OrgTree {
        heading: o.heading().to_string(),
        content: o.content_as_ref().clone(),
        subtrees: o.subtrees_as_ref().iter().map(tree_of).collect(),
    }
}

fn org_tree(org_text: &str) -> OrgTree {
    let lines: Vec<String> = org_text.lines().map(|s| s.to_string()).collect();
    let org = Org::from_vec(&lines).expect("Failed to parse org");
    tree_of(&org)
}

#[test]
fn test_extract_metadata_with_title() {
    let org_text = "#+TITLE: Test Document\n\nContent here.";
    let org = org_tree(org_text);
    let (metadata, _) = OrgModeExtractor::extract_metadata_and_content(org_text, &org);

    assert!(metadata.title.is_some());
}

#[test]
fn test_extract_metadata_with_author() {
    let org_text = "#+AUTHOR: John Doe\n\nContent here.";
    let org = org_tree(org_text);
    let (metadata, _) = OrgModeExtractor::extract_metadata_and_content(org_text, &org);

    assert!(metadata.authors.is_some());
}

#[test]
fn test_extract_metadata_with_date() {
    let org_text = "#+DATE: 2024-01-15\n\nContent here.";
    let org = org_tree(org_text);
    let (metadata, _) = OrgModeExtractor::extract_metadata_and_content(org_text, &org);

    assert_eq!(metadata.created_at, Some("2024-01-15".to_string()));
}

#[test]
fn test_extract_metadata_with_keywords() {
    let org_text = "#+KEYWORDS: rust, org-mode, parsing\n\nContent here.";
    let org = org_tree(org_text);
    let (metadata, _) = OrgModeExtractor::extract_metadata_and_content(org_text, &org);

    assert!(metadata.keywords.is_some());
}

#[test]
fn test_extract_content_with_headings() {
    let org_text = "* Heading 1\n\nSome content.\n\n** Heading 2\n\nMore content.";
    let org = org_tree(org_text);
    let content = OrgModeExtractor::extract_content(&org);

    assert!(content.contains("Heading 1"));
    assert!(content.contains("Heading 2"));
    assert!(content.contains("Some content"));
    assert!(content.contains("More content"));
}

#[test]
fn test_extract_content_with_paragraphs() {
    let org_text = "First paragraph.\n\nSecond paragraph.";
    let org = org_tree(org_text);
    let content = OrgModeExtractor::extract_content(&org);

    assert!(content.contains("First paragraph"));
    assert!(content.contains("Second paragraph"));
}

#[test]
fn test_extract_content_with_lists() {
    let org_text = "- Item 1\n- Item 2\n- Item 3";
    let org = org_tree(org_text);
    let content = OrgModeExtractor::extract_content(&org);

    assert!(content.contains("Item 1"));
    assert!(content.contains("Item 2"));
    assert!(content.contains("Item 3"));
}

#[test]
fn test_link_with_description() {
    let org_text = r#"* Links Test

[[http://att.com/][AT&T]]
"#;
    let org = org_tree(org_text);
    let content = OrgModeExtractor::extract_content(&org);

    assert!(content.contains("AT&T"), "Should contain link description 'AT&T'");
}

#[test]
fn test_link_without_description() {
    let org_text = r#"* Links Test

[[https://example.com]]
"#;
    let org = org_tree(org_text);
    let content = OrgModeExtractor::extract_content(&org);

    assert!(
        content.contains("example.com"),
        "Should contain link path when no description provided"
    );
}

#[test]
fn test_link_with_ampersand_in_description() {
    let org_text = r#"* Company Links

[[http://att.com/][AT&T Company]]
"#;
    let org = org_tree(org_text);
    let content = OrgModeExtractor::extract_content(&org);

    assert!(
        content.contains("AT&T"),
        "Should preserve ampersand in link description"
    );
}

#[test]
fn test_multiple_links_with_mixed_descriptions() {
    let org_text = r#"* Multiple Links

[[https://example.com][Example Link]]

[[https://example.org]]

[[mailto:test@example.com][Contact]]
"#;
    let org = org_tree(org_text);
    let content = OrgModeExtractor::extract_content(&org);

    assert!(content.contains("Example Link"));
    assert!(content.contains("example.org"));
    assert!(content.contains("Contact"));
}

#[test]
fn test_link_description_priority_over_url() {
    let org_text = r#"[[http://att.com/][AT&T]]"#;
    let org = org_tree(org_text);
    let content = OrgModeExtractor::extract_content(&org);

    assert!(content.contains("AT&T"), "Description should be prioritized over URL");
    // Inline markup is now stripped: [[url][desc]] → desc (not [desc])
    assert!(
        !content.contains("[["),
        "Raw org link syntax should be stripped by inline markup processing"
    );
}

#[test]
fn test_cjk_heading_with_markup() {
    let org_text = "* 見出し\n\n🎉 *太字* テスト";
    let org = org_tree(org_text);
    let content = OrgModeExtractor::extract_content(&org);
    assert!(content.contains("見出し"), "CJK heading preserved");
    assert!(content.contains("太字"), "Bold CJK text present");
}

#[test]
fn orgmode_tree_exact_text_and_tables() {
    let org_text = "#+TITLE: T\n#+title: lower\n#+Custom Key: v\n#+AUTHOR: A\n#+DATE: D1\n#+DATE: D2\n#+KEYWORDS: a, ,b\nIntro *bold*\nline two\n\n| x | y |\n|---+---|\n| 1 | 2 |\nafter\n* Head /it/\n| only |\n";
    let org = org_tree(org_text);
    let (m, content) = OrgModeExtractor::extract_metadata_and_content(org_text, &org);
    assert_eq!(m.title.as_deref(), Some("T"));
    assert_eq!(m.authors, Some(vec!["A".to_string()]));
    assert_eq!(m.created_at.as_deref(), Some("D2"));
    assert_eq!(m.keywords, Some(vec!["a".to_string(), "".to_string(), "b".to_string()]));
    assert_eq!(
        m.additional,
        vec![
            ("directive_title".to_string(), "lower".to_string()),
            ("directive_custom key".to_string(), "v".to_string()),
            ("date".to_string(), "D2".to_string()),
        ]
    );
    assert!(content.contains("Intro bold line two\n"));
    assert!(content.contains("# Head it\n"));
    let tables = OrgModeExtractor::extract_tables(&org);
    assert_eq!(tables.len(), 2);
    assert_eq!(
        tables[0].cells,
        vec![
            vec!["x".to_string(), "y".to_string()],
            vec!["---+---".to_string()],
            vec!["1".to_string(), "2".to_string()],
        ]
    );
    assert_eq!(tables[0].page_number, 1);
    assert_eq!(tables[1].cells, vec![vec!["only".to_string()]]);
}

#[test]
fn org_bytes_give_metadata_tables_and_mime_type() {
    let bytes = b"#+TITLE: Report\n#+AUTHOR: Ann\n\n* Data\n| a | b |\n| 1 | 2 |\n";
    let doc = OrgModeExtractor::extract_bytes(bytes, "text/x-org").expect("org parses");
    assert_eq!(doc.mime_type, "text/x-org");
    assert_eq!(doc.source_format, "orgmode");
    assert_eq!(doc.metadata.title.as_deref(), Some("Report"));
    let last = doc.tables.last().expect("a table");
    assert_eq!(last.cells, vec![vec!["a".to_string(), "b".to_string()], vec!["1".to_string(), "2".to_string()]]);
    let tree = org_tree(std::str::from_utf8(bytes).unwrap());
    assert_eq!(doc.tables.len(), OrgModeExtractor::extract_tables(&tree).len());
}
