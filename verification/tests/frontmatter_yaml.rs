use kreuzberg::frontmatter::{
    document_metadata, extract_frontmatter, frontmatter_entries, frontmatter_from_parsed, parse_yaml, extract_metadata_from_yaml, extract_title_from_content, split_frontmatter, YamlValue,
};

fn parse(s: &str) -> Option<YamlValue> {
    parse_yaml(s)
}

/// Front matter split from `content`, its block parsed as YAML.
fn front(content: &str) -> (Option<YamlValue>, String) {
    extract_frontmatter(content)
}

#[test]
fn test_frontmatter_basic() {
    let content = "---\ntitle: Test\n---\n\n# Content";
    let (yaml, remaining) = front(content);

    assert!(yaml.is_some());
    assert!(remaining.contains("# Content"));

    let metadata = extract_metadata_from_yaml(&yaml.unwrap());
    assert_eq!(metadata.title.as_deref(), Some("Test"));
}

#[test]
fn test_frontmatter_with_dashes_in_content() {
    let content = "---\ntitle: Test\ndescription: |\n  This has ---\n  in the middle\n---\n\n# Body";
    let (yaml, remaining) = front(content);

    assert!(yaml.is_some());
    assert!(remaining.contains("# Body"));
}

#[test]
fn test_frontmatter_with_dots_terminator() {
    let content = "---\ntitle: Test\nauthor: John\n...\n\n# Content";
    let (yaml, remaining) = front(content);

    assert!(yaml.is_some());
    assert!(remaining.contains("# Content"));

    let metadata = extract_metadata_from_yaml(&yaml.unwrap());
    assert_eq!(metadata.title.as_deref(), Some("Test"));
}

#[test]
fn test_frontmatter_with_triple_dash_in_string() {
    let content = "---\ntitle: \"Before --- After\"\nauthor: John\n---\n\n# Content";
    let (yaml, remaining) = front(content);

    assert!(yaml.is_some());
    assert!(remaining.contains("# Content"));

    let metadata = extract_metadata_from_yaml(&yaml.unwrap());
    assert_eq!(metadata.title.as_deref(), Some("Before --- After"));
}

#[test]
fn test_frontmatter_multiline_string_with_dashes() {
    let content = "---\ntitle: Test\ndescription: |\n  Line 1\n  ---\n  Line 2\n---\n\n# Body";
    let (yaml, remaining) = front(content);

    assert!(yaml.is_some());
    assert!(remaining.contains("# Body"));

    let metadata = extract_metadata_from_yaml(&yaml.unwrap());
    assert_eq!(metadata.title.as_deref(), Some("Test"));
}

#[test]
fn test_no_frontmatter() {
    let content = "# Title\n\nContent without frontmatter";
    let (yaml, remaining) = front(content);

    assert!(yaml.is_none());
    assert_eq!(remaining, content);
}

#[test]
fn test_incomplete_frontmatter() {
    let content = "---\ntitle: Test\nauthor: John\n\n# Content";
    let (yaml, remaining) = front(content);

    assert!(yaml.is_none());
    assert_eq!(remaining, content);
}

#[test]
fn test_metadata_from_yaml_all_fields() {
    let yaml_str = r#"
title: Test Document
author: John Doe
date: 2024-01-15
keywords:
  - rust
  - testing
description: A test document
abstract: This is an abstract
subject: Test Subject
category: Documentation
tags:
  - tag1
  - tag2
language: en
version: 1.0
"#;

    let yaml = parse(yaml_str).unwrap();
    let metadata = extract_metadata_from_yaml(&yaml);

    assert_eq!(metadata.title.as_deref(), Some("Test Document"));
    assert_eq!(metadata.created_by.as_deref(), Some("John Doe"));
    assert_eq!(metadata.created_at, Some("2024-01-15".to_string()));
    assert!(metadata.keywords.is_some());
    assert_eq!(metadata.subject, Some("Test Subject".to_string()));
    assert!(metadata.tags.is_some());
}

#[test]
fn test_metadata_from_yaml_string_arrays() {
    let yaml_str = r#"
keywords: "single, keyword, string"
tags: "tag1, tag2"
"#;

    let yaml = parse(yaml_str).unwrap();
    let metadata = extract_metadata_from_yaml(&yaml);

    assert_eq!(
        metadata.keywords.as_deref(),
        Some(["single", "keyword", "string"].map(String::from).as_slice())
    );
}

#[test]
fn test_extract_frontmatter_metadata() {
    let content = b"---\ntitle: My Document\nauthor: John Doe\ndate: 2024-01-15\nkeywords: rust, markdown, extraction\ndescription: A test document\n---\n\n# Content\n\nBody text.";

    let text = String::from_utf8_lossy(content).into_owned();

    let (yaml_opt, remaining) = front(&text);
    assert!(yaml_opt.is_some());
    assert!(remaining.contains("# Content"));

    let yaml = yaml_opt.expect("Should extract YAML frontmatter");
    let metadata = extract_metadata_from_yaml(&yaml);

    assert_eq!(metadata.title.as_deref(), Some("My Document"));
    assert_eq!(metadata.created_by.as_deref(), Some("John Doe"));
    assert_eq!(metadata.created_at, Some("2024-01-15".to_string()));
    assert!(metadata.subject.is_some());
    assert!(metadata.subject.as_ref().expect("Should have subject description").contains("test document"));
}

#[test]
fn test_extract_frontmatter_metadata_array_keywords() {
    let content = b"---\ntitle: Document\nkeywords:\n  - rust\n  - markdown\n  - parsing\n---\n\nContent";

    let text = String::from_utf8_lossy(content).into_owned();
    let (yaml_opt, _remaining) = front(&text);

    assert!(yaml_opt.is_some());
    let yaml = yaml_opt.expect("Should extract YAML frontmatter");
    let metadata = extract_metadata_from_yaml(&yaml);

    let keywords = metadata.keywords.as_ref().expect("Should extract keywords from metadata");
    assert!(keywords.iter().any(|k| k == "rust"));
    assert!(keywords.iter().any(|k| k == "markdown"));
}

#[test]
fn test_extract_without_frontmatter() {
    let content = b"# Main Title\n\nSome content\n\nMore text";
    let text = String::from_utf8_lossy(content).into_owned();

    let (yaml, remaining) = front(&text);
    assert!(yaml.is_none());
    assert_eq!(remaining, text);

    let title = extract_title_from_content(&remaining);
    assert_eq!(title, Some("Main Title".to_string()));
}

#[test]
fn test_malformed_frontmatter_fallback() {
    let content = b"---\nthis: is: invalid: yaml:\n---\n\nContent here";
    let text = String::from_utf8_lossy(content).into_owned();

    let (yaml, _remaining) = front(&text);
    let _ = yaml;
}

#[test]
fn test_metadata_extraction_completeness() {
    let yaml_str = r#"
title: "Test Document"
author: "Test Author"
date: "2024-01-15"
keywords:
  - rust
  - markdown
  - testing
description: "A test description"
abstract: "Test abstract"
subject: "Test subject"
category: "Documentation"
version: "1.2.3"
language: "en"
tags:
  - tag1
  - tag2
custom_field: "custom_value"
nested:
  organization: "Test Corp"
  contact:
    email: "test@example.com"
"#;

    let yaml = parse(yaml_str).expect("Valid YAML");
    let metadata = extract_metadata_from_yaml(&yaml);

    assert_eq!(metadata.created_at, Some("2024-01-15".to_string()));
    assert_eq!(metadata.title.as_deref(), Some("Test Document"));
    assert_eq!(metadata.created_by.as_deref(), Some("Test Author"));

    let keywords = metadata.keywords.as_ref().expect("Should have keywords");
    assert!(keywords.iter().any(|k| k == "rust"));
    assert!(keywords.iter().any(|k| k == "markdown"));

    assert_eq!(metadata.subject, Some("Test subject".to_string()));
    assert_eq!(metadata.abstract_text.as_deref(), Some("Test abstract"));
    assert_eq!(metadata.category.as_deref(), Some("Documentation"));

    let tags = metadata.tags.as_ref().expect("Should have tags");
    assert!(tags.iter().any(|t| t == "tag1"));
    assert!(tags.iter().any(|t| t == "tag2"));

    assert_eq!(metadata.language.as_deref(), Some("en"));
    assert_eq!(metadata.document_version.as_deref(), Some("1.2.3"));
}

#[test]
fn frontmatter_yaml_description_is_subject_fallback_and_tags_split() {
    let yaml = parse("description: Desc\ntags: ' a ,b,, c'\nversion: 2\n").unwrap();
    let metadata = extract_metadata_from_yaml(&yaml);
    assert_eq!(metadata.subject.as_deref(), Some("Desc"));
    assert_eq!(
        metadata.tags,
        Some(vec!["a".to_string(), "b".to_string(), "".to_string(), "c".to_string()])
    );
    // A number is not a string.
    assert_eq!(metadata.document_version, None);
    assert_eq!(metadata.title, None);
}

#[test]
fn frontmatter_yaml_tagged_and_non_mapping() {
    let yaml = parse("title: !custom Tagged\nkeywords: [a, 1, b]\n").unwrap();
    let metadata = extract_metadata_from_yaml(&yaml);
    assert_eq!(metadata.title.as_deref(), Some("Tagged"));
    assert_eq!(metadata.keywords, Some(vec!["a".to_string(), "b".to_string()]));
    let scalar = parse("just text").unwrap();
    let m2 = extract_metadata_from_yaml(&scalar);
    assert_eq!(m2.title, None);
    assert_eq!(m2.keywords, None);
}

#[test]
fn frontmatter_document_metadata_title_fallback() {
    let content = "---\nauthor: Ann\n---\n# Heading Title\n\nBody";
    let (yaml, remaining) = front(content);
    let m = document_metadata(&yaml, &remaining);
    assert_eq!(m.title.as_deref(), Some("Heading Title"));
    assert_eq!(m.created_by.as_deref(), Some("Ann"));
    let (yaml2, remaining2) = front("---\ntitle: Given\n---\n# Other");
    assert_eq!(document_metadata(&yaml2, &remaining2).title.as_deref(), Some("Given"));
    assert_eq!(document_metadata(&None, "no heading").title, None);
}

#[test]
fn frontmatter_split_gives_back_its_parts() {
    let content = "---\na: b\n---\nrest of it";
    let (block, rest) = split_frontmatter(content).unwrap();
    assert_eq!(block, "\na: b");
    assert_eq!(rest, "rest of it");
    assert!(content.starts_with(&format!("---{block}")));
    assert!(content.ends_with(&rest));
}

#[test]
fn frontmatter_entries_keep_string_keys() {
    let y = YamlValue::Mapping(vec![
        (YamlValue::String("title".to_string()), YamlValue::String("T".to_string())),
        (YamlValue::Number("1".to_string()), YamlValue::String("skipped".to_string())),
        (YamlValue::String("count".to_string()), YamlValue::Number("3".to_string())),
    ]);
    assert_eq!(
        frontmatter_entries(&Some(y)),
        vec![("title".to_string(), Some("T".to_string())), ("count".to_string(), None)]
    );
    assert!(frontmatter_entries(&Some(YamlValue::String("x".to_string()))).is_empty());
    assert!(frontmatter_entries(&None).is_empty());
}

#[test]
fn frontmatter_from_parsed_keeps_the_given_value() {
    let content = "---\ntitle: A\n---\nbody";
    let (yaml, rest) = frontmatter_from_parsed(content, Some(YamlValue::Null));
    assert!(matches!(yaml, Some(YamlValue::Null)));
    assert_eq!(rest, "body");
    let (none, whole) = frontmatter_from_parsed(content, None);
    assert!(none.is_none());
    assert_eq!(whole, content);
    let (no_block, all) = frontmatter_from_parsed("plain", Some(YamlValue::Null));
    assert!(no_block.is_none());
    assert_eq!(all, "plain");
}

#[test]
fn invalid_yaml_block_leaves_content_whole() {
    let content = "---\ntitle: [unclosed\n---\nbody";
    let (yaml, rest) = extract_frontmatter(content);
    assert!(yaml.is_none());
    assert_eq!(rest, content);
}

#[test]
fn parsed_yaml_keeps_order_tags_and_numbers() {
    let v = parse_yaml("b: 2\na: !t [x, 1.5]\n").unwrap();
    let YamlValue::Mapping(members) = v else { panic!("expected a mapping") };
    assert_eq!(members.len(), 2);
    assert!(matches!(&members[0].0, YamlValue::String(k) if k == "b"));
    assert!(matches!(&members[0].1, YamlValue::Number(n) if n == "2"));
    assert!(matches!(&members[1].0, YamlValue::String(k) if k == "a"));
    let YamlValue::Tagged(tag, inner) = &members[1].1 else { panic!("expected a tagged value") };
    assert_eq!(tag, "!t");
    let YamlValue::Sequence(items) = inner.as_ref() else { panic!("expected a sequence") };
    assert!(matches!(&items[0], YamlValue::String(x) if x == "x"));
    assert!(matches!(&items[1], YamlValue::Number(n) if n == "1.5"));
}
