use kreuzberg::frontmatter::{extract_frontmatter, YamlValue};
use kreuzberg::markdown_utils::{decode_data_uri_image, extract_text_from_events, MdEvent, MdHeading, MdTag, MdTagEnd};
use pulldown_cmark::{CodeBlockKind, Event, HeadingLevel, Options, Parser, Tag, TagEnd};

/// The library's event for a `pulldown_cmark` event.
fn convert(e: Event) -> MdEvent {
    match e {
        Event::Start(t) => MdEvent::Start(match t {
            Tag::Paragraph => MdTag::Paragraph,
            Tag::Heading { level, .. } => MdTag::Heading(match level {
                HeadingLevel::H1 => MdHeading::H1,
                HeadingLevel::H2 => MdHeading::H2,
                HeadingLevel::H3 => MdHeading::H3,
                HeadingLevel::H4 => MdHeading::H4,
                HeadingLevel::H5 => MdHeading::H5,
                HeadingLevel::H6 => MdHeading::H6,
            }),
            Tag::BlockQuote(_) => MdTag::BlockQuote,
            Tag::CodeBlock(CodeBlockKind::Fenced(lang)) => MdTag::CodeBlock(Some(lang.to_string())),
            Tag::CodeBlock(CodeBlockKind::Indented) => MdTag::CodeBlock(None),
            Tag::Link { dest_url, title, .. } => MdTag::Link(dest_url.to_string(), title.to_string()),
            Tag::Image { dest_url, .. } => MdTag::Image(dest_url.to_string()),
            Tag::Strong => MdTag::Strong,
            Tag::Emphasis => MdTag::Emphasis,
            Tag::Strikethrough => MdTag::Strikethrough,
            Tag::List(start) => MdTag::List(start.is_some()),
            Tag::Item => MdTag::Item,
            Tag::Table(_) => MdTag::Table,
            Tag::TableHead => MdTag::TableHead,
            Tag::TableRow => MdTag::TableRow,
            Tag::TableCell => MdTag::TableCell,
            Tag::FootnoteDefinition(label) => MdTag::FootnoteDefinition(label.to_string()),
            _ => MdTag::Other,
        }),
        Event::End(t) => MdEvent::End(match t {
            TagEnd::Paragraph => MdTagEnd::Paragraph,
            TagEnd::Heading(_) => MdTagEnd::Heading,
            TagEnd::CodeBlock => MdTagEnd::CodeBlock,
            TagEnd::Link => MdTagEnd::Link,
            TagEnd::Image => MdTagEnd::Image,
            TagEnd::Strong => MdTagEnd::Strong,
            TagEnd::Emphasis => MdTagEnd::Emphasis,
            TagEnd::Strikethrough => MdTagEnd::Strikethrough,
            TagEnd::BlockQuote(_) => MdTagEnd::BlockQuote,
            TagEnd::List(_) => MdTagEnd::List,
            TagEnd::Item => MdTagEnd::Item,
            TagEnd::Table => MdTagEnd::Table,
            TagEnd::TableHead => MdTagEnd::TableHead,
            TagEnd::TableRow => MdTagEnd::TableRow,
            TagEnd::TableCell => MdTagEnd::TableCell,
            TagEnd::FootnoteDefinition => MdTagEnd::FootnoteDefinition,
            _ => MdTagEnd::Other,
        }),
        Event::Text(s) => MdEvent::Text(s.to_string()),
        Event::Code(s) => MdEvent::Code(s.to_string()),
        Event::Html(s) => MdEvent::Html(s.to_string()),
        Event::FootnoteReference(s) => MdEvent::FootnoteReference(s.to_string()),
        Event::SoftBreak => MdEvent::SoftBreak,
        Event::HardBreak => MdEvent::HardBreak,
        Event::Rule => MdEvent::Rule,
        Event::TaskListMarker(b) => MdEvent::TaskListMarker(b),
        _ => MdEvent::Other,
    }
}

fn events_of(text: &str) -> Vec<MdEvent> {
    Parser::new_ext(text, Options::ENABLE_TABLES).map(convert).collect()
}

fn front(content: &str) -> (Option<YamlValue>, String) {
    extract_frontmatter(content)
}

#[test]
fn test_extract_simple_markdown() {
    let content =
        b"# Header\n\nThis is a paragraph with **bold** and *italic* text.\n\n## Subheading\n\nMore content here.";
    let text = String::from_utf8_lossy(content).into_owned();

    let (yaml, remaining) = front(&text);
    assert!(yaml.is_none());
    assert!(!remaining.is_empty());

    let events = events_of(&remaining);
    let extracted = extract_text_from_events(&events, &mut Vec::new());

    assert!(extracted.contains("Header"));
    assert!(extracted.contains("This is a paragraph"));
    assert!(extracted.contains("bold"));
    assert!(extracted.contains("italic"));
}

#[test]
fn test_empty_document() {
    let content = b"";
    let text = String::from_utf8_lossy(content).into_owned();

    let (yaml, remaining) = front(&text);
    assert!(yaml.is_none());
    assert!(remaining.is_empty());

    let events = events_of(&remaining);
    let extracted = extract_text_from_events(&events, &mut Vec::new());
    assert!(extracted.is_empty());
}

#[test]
fn test_whitespace_only_document() {
    let content = b"   \n\n  \n";
    let text = String::from_utf8_lossy(content).into_owned();

    let (yaml, remaining) = front(&text);
    assert!(yaml.is_none());

    let events = events_of(&remaining);
    let extracted = extract_text_from_events(&events, &mut Vec::new());
    assert!(extracted.trim().is_empty());
}

#[test]
fn test_unicode_content() {
    let content = "# 日本語のタイトル\n\nこれは日本語の内容です。\n\n## Español\n\nEste es un documento en español.\n\n## Русский\n\nЭто русский текст.".as_bytes();

    let text = String::from_utf8_lossy(content).into_owned();

    let (yaml, remaining) = front(&text);
    assert!(yaml.is_none());

    let events = events_of(&remaining);
    let extracted = extract_text_from_events(&events, &mut Vec::new());

    assert!(extracted.contains("日本語"));
    assert!(extracted.contains("Español"));
    assert!(extracted.contains("Русский"));
}

#[test]
fn test_extract_markdown_with_links() {
    let content = b"# Page\n\nCheck [Google](https://google.com) and [Rust](https://rust-lang.org).";
    let text = String::from_utf8_lossy(content).into_owned();

    let events = events_of(&text);
    let extracted = extract_text_from_events(&events, &mut Vec::new());

    assert!(extracted.contains("Google"));
    assert!(extracted.contains("Rust"));
}

#[test]
fn test_extract_markdown_with_code_blocks() {
    let content = b"# Code Example\n\n```rust\nfn main() {\n    println!(\"Hello\");\n}\n```";
    let text = String::from_utf8_lossy(content).into_owned();

    let events = events_of(&text);
    let extracted = extract_text_from_events(&events, &mut Vec::new());

    assert!(extracted.contains("main"));
    assert!(extracted.contains("println"));
}

#[test]
fn markdown_text_links_code_and_images() {
    let events = events_of("# Title\n\nSee [x](https://a.b) and [y](#frag).\n\n```py\nprint()\n```\n\n![pic](i.png)");
    let extracted = extract_text_from_events(&events, &mut Vec::new());
    assert!(extracted.starts_with("\n# Title\n"));
    assert!(extracted.contains("See x (https://a.b) and y."));
    assert!(!extracted.contains("#frag"));
    assert!(extracted.contains("\n```py\nprint()\n```\n"));
    assert!(extracted.contains("[Image: i.png]pic"));
}

#[test]
fn markdown_text_hand_written_events() {
    let events = vec![
        MdEvent::Start(MdTag::Heading(MdHeading::H3)),
        MdEvent::Start(MdTag::Paragraph),
        MdEvent::Text("t".to_string()),
        MdEvent::End(MdTagEnd::Heading),
        MdEvent::FootnoteReference("1".to_string()),
        MdEvent::Start(MdTag::Image(String::new())),
        MdEvent::Start(MdTag::CodeBlock(None)),
        MdEvent::TaskListMarker(false),
        MdEvent::End(MdTagEnd::Link),
        MdEvent::Other,
    ];
    assert_eq!(extract_text_from_events(&events, &mut Vec::new()), "\n### t\n[1][Image][ ] ");
}

#[test]
fn test_decode_data_uri_png() {
    // 1x1 red PNG pixel (minimal valid PNG)
    let png_b64 =
        "iVBORw0KGgoAAAANSUhEUgAAAAEAAAABCAYAAAAfFcSJAAAADUlEQVR42mP8/5+hHgAHggJ/PchI7wAAAABJRU5ErkJggg==";
    let uri = format!("data:image/png;base64,{png_b64}");

    let image = decode_data_uri_image(&uri, 0);
    assert!(image.is_some());
    let img = image.unwrap();
    assert_eq!(img.format.as_str(), "png");
    assert_eq!(img.image_index, 0);
    assert!(!img.data.is_empty());
}

#[test]
fn test_decode_data_uri_jpeg() {
    // Minimal JPEG-like base64 (tests the decode path)
    let uri = "data:image/jpeg;base64,/9j/4AAQSkZJRg==";

    let image = decode_data_uri_image(uri, 3);
    assert!(image.is_some());
    let img = image.unwrap();
    assert_eq!(img.format.as_str(), "jpeg");
    assert_eq!(img.image_index, 3);
}

#[test]
fn test_decode_data_uri_unsupported_format() {
    let uri = "data:image/tiff;base64,AAAA";
    let image = decode_data_uri_image(uri, 0);
    assert!(image.is_none());
}

#[test]
fn test_decode_data_uri_non_base64() {
    let uri = "data:image/png,raw-data-here";
    let image = decode_data_uri_image(uri, 0);
    assert!(image.is_none());
}

#[test]
fn test_decode_data_uri_invalid_base64() {
    let uri = "data:image/png;base64,!!!not-valid-base64!!!";
    let image = decode_data_uri_image(uri, 0);
    assert!(image.is_none());
}

#[test]
fn test_decode_data_uri_not_data_uri() {
    let uri = "https://example.com/image.png";
    let image = decode_data_uri_image(uri, 0);
    assert!(image.is_none());
}

#[test]
fn test_extract_text_collects_data_uri_images() {
    let png_b64 =
        "iVBORw0KGgoAAAANSUhEUgAAAAEAAAABCAYAAAAfFcSJAAAADUlEQVR42mP8/5+hHgAHggJ/PchI7wAAAABJRU5ErkJggg==";
    let md = format!("# Title\n\n![alt](data:image/png;base64,{png_b64})\n\nSome text.");

    let events = events_of(&md);
    let mut images = Vec::new();
    let text = extract_text_from_events(&events, &mut images);

    assert_eq!(images.len(), 1);
    assert_eq!(images[0].format.as_str(), "png");
    assert!(text.contains("[Image: data:image/png;base64,"));
}

#[test]
fn test_extract_text_skips_http_images() {
    let md = "# Title\n\n![alt](https://example.com/photo.jpg)\n\nSome text.";

    let events = events_of(md);
    let mut images = Vec::new();
    let text = extract_text_from_events(&events, &mut images);

    assert!(images.is_empty());
    assert!(text.contains("[Image: https://example.com/photo.jpg]"));
}

#[test]
fn data_uri_decodes_the_bytes_with_line_breaks_removed() {
    let img = decode_data_uri_image("data:image/gif;charset=x;base64,aGVs\nbG8=", 7).expect("decodes");
    assert_eq!(img.data, b"hello".to_vec());
    assert_eq!(img.format, "gif");
    assert_eq!(img.image_index, 7);
    assert_eq!(img.page_number, None);
    assert_eq!(img.description, None);
    assert!(decode_data_uri_image("data:image/webp;base64", 0).is_none());
    assert_eq!(decode_data_uri_image("data:image/webp;base64,", 0).map(|i| i.data), Some(Vec::new()));
}

#[test]
fn data_uri_images_are_numbered_after_those_already_collected() {
    let md = "![a](data:image/png;base64,aGk=) ![b](data:image/png;base64,!!) ![c](data:image/jpeg;base64,aGk=)";
    let events = events_of(md);
    let mut images = vec![decode_data_uri_image("data:image/png;base64,aGk=", 0).unwrap()];
    let _ = extract_text_from_events(&events, &mut images);
    let idx: Vec<usize> = images.iter().map(|i| i.image_index).collect();
    assert_eq!(idx, vec![0, 1, 2]);
    assert_eq!(images[2].format, "jpeg");
}
