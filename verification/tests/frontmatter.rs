use kreuzberg::frontmatter::{cells_to_markdown, extract_title_from_content, split_frontmatter};

#[test]
fn test_extract_title_from_content() {
    let content = "# My Document\n\nContent here";
    assert_eq!(extract_title_from_content(content), Some("My Document".to_string()));
}

#[test]
fn test_extract_title_from_content_no_heading() {
    let content = "Content without heading";
    assert_eq!(extract_title_from_content(content), None);
}

#[test]
fn test_extract_title_from_content_level_2() {
    let content = "## Subheading\n\nContent";
    assert_eq!(extract_title_from_content(content), None);
}

#[test]
fn frontmatter_utils_test_cells_to_markdown() {
    let cells = vec![
        vec!["Name".to_string(), "Age".to_string()],
        vec!["Alice".to_string(), "30".to_string()],
        vec!["Bob".to_string(), "25".to_string()],
    ];

    let markdown = cells_to_markdown(&cells);
    assert!(markdown.contains("| Name | Age |"));
    assert!(markdown.contains("| Alice | 30 |"));
    assert!(markdown.contains("| Bob | 25 |"));
    assert!(markdown.contains("| --- | --- |"));
}

#[test]
fn test_cells_to_markdown_empty() {
    let cells: Vec<Vec<String>> = vec![];
    let markdown = cells_to_markdown(&cells);
    assert_eq!(markdown, "");
}

#[test]
fn cells_to_markdown_header_only_has_separator() {
    let cells = vec![vec!["A".to_string()]];
    assert_eq!(cells_to_markdown(&cells), "| A |\n| --- |\n");
}

#[test]
fn frontmatter_split_basic() {
    let (yaml, rest) = split_frontmatter("---\ntitle: Test\n---\n\n# Content").unwrap();
    assert_eq!(yaml, "\ntitle: Test");
    assert_eq!(rest, "\n# Content");
}

#[test]
fn frontmatter_split_dots_terminator() {
    let (yaml, rest) = split_frontmatter("---\ntitle: Test\nauthor: John\n...\n\n# Content").unwrap();
    assert_eq!(yaml, "\ntitle: Test\nauthor: John");
    assert!(rest.contains("# Content"));
}

#[test]
fn frontmatter_split_dashes_inside_value() {
    let (yaml, rest) =
        split_frontmatter("---\ntitle: Test\ndescription: |\n  This has ---\n  in the middle\n---\n\n# Body").unwrap();
    assert!(yaml.contains("This has ---"));
    assert!(rest.contains("# Body"));
}

#[test]
fn frontmatter_split_none_without_block() {
    assert_eq!(split_frontmatter("# Title\n\nContent without frontmatter"), None);
    assert_eq!(split_frontmatter("---\ntitle: Test\nauthor: John\n\n# Content"), None);
}

#[test]
fn frontmatter_split_closing_at_end() {
    let (yaml, rest) = split_frontmatter("---\na: 1\n---").unwrap();
    assert_eq!(yaml, "\na: 1");
    assert_eq!(rest, "");
}

#[test]
fn title_is_trimmed_and_first_wins() {
    assert_eq!(extract_title_from_content("text\n#  Spaced  \n# Second"), Some("Spaced".to_string()));
}
