use kreuzberg::mdx::{count_braces, MdxExtractor};
use kreuzberg::plugins::VERSION;

#[test]
fn test_strip_import_statements() {
    let input = "import { Chart } from './Chart'\nimport Alert from './Alert'\n\n# Hello\n";
    let result = MdxExtractor::strip_mdx_syntax(input);
    assert!(!result.contains("import"));
    assert!(result.contains("# Hello"));
}

#[test]
fn test_strip_multiline_import() {
    let input = "import {\n  Chart,\n  Table,\n} from './components'\n\n# Hello\n";
    let result = MdxExtractor::strip_mdx_syntax(input);
    assert!(!result.contains("import"));
    assert!(!result.contains("Chart"));
    assert!(result.contains("# Hello"));
}

#[test]
fn test_strip_export_statements() {
    let input = "export const meta = { title: 'Hello' }\n\n# Hello\n";
    let result = MdxExtractor::strip_mdx_syntax(input);
    assert!(!result.contains("export"));
    assert!(result.contains("# Hello"));
}

#[test]
fn test_strip_multiline_export() {
    let input = "export const meta = {\n  title: 'Hello',\n  date: '2024-01-01',\n}\n\n# Hello\n";
    let result = MdxExtractor::strip_mdx_syntax(input);
    assert!(!result.contains("export"));
    assert!(!result.contains("title"));
    assert!(result.contains("# Hello"));
}

#[test]
fn test_strip_export_default() {
    let input = "export default function Layout({ children }) { return children }\n\n# Hello\n";
    let result = MdxExtractor::strip_mdx_syntax(input);
    assert!(!result.contains("export"));
    assert!(result.contains("# Hello"));
}

#[test]
fn test_strip_jsx_component_tags() {
    let input = "# Hello\n\n<Alert type=\"warning\">\nBe careful!\n</Alert>\n\nMore text.\n";
    let result = MdxExtractor::strip_mdx_syntax(input);
    assert!(!result.contains("<Alert"));
    assert!(!result.contains("</Alert>"));
    assert!(result.contains("Be careful!"));
    assert!(result.contains("More text."));
}

#[test]
fn test_strip_self_closing_jsx() {
    let input = "# Hello\n\n<Chart data={data} />\n\nSome text.\n";
    let result = MdxExtractor::strip_mdx_syntax(input);
    assert!(!result.contains("<Chart"));
    assert!(result.contains("Some text."));
}

#[test]
fn test_strip_jsx_expression_lines() {
    let input = "# Hello\n\n{/* This is a comment */}\n\n{someExpression}\n\nText.\n";
    let result = MdxExtractor::strip_mdx_syntax(input);
    assert!(!result.contains("comment"));
    assert!(!result.contains("someExpression"));
    assert!(result.contains("Text."));
}

#[test]
fn test_preserve_code_fences() {
    let input =
        "# Hello\n\n```jsx\nimport React from 'react'\nconst x = <Component />\nexport default App\n```\n\nText.\n";
    let result = MdxExtractor::strip_mdx_syntax(input);
    assert!(result.contains("import React from 'react'"));
    assert!(result.contains("<Component />"));
    assert!(result.contains("export default App"));
    assert!(result.contains("Text."));
}

#[test]
fn test_preserve_standard_html_tags() {
    let input = "# Hello\n\n<div>Some content</div>\n\n<p>Paragraph</p>\n";
    let result = MdxExtractor::strip_mdx_syntax(input);
    assert!(result.contains("<div>"));
    assert!(result.contains("</div>"));
    assert!(result.contains("<p>"));
}

#[test]
fn test_preserve_markdown_content() {
    let input = "# Title\n\nThis is **bold** and *italic* text.\n\n- Item 1\n- Item 2\n\n> Blockquote\n";
    let result = MdxExtractor::strip_mdx_syntax(input);
    assert!(result.contains("# Title"));
    assert!(result.contains("**bold**"));
    assert!(result.contains("*italic*"));
    assert!(result.contains("- Item 1"));
    assert!(result.contains("> Blockquote"));
}

#[test]
fn test_strip_complex_mdx() {
    let input = r#"import { Chart } from './Chart'
import Alert from './Alert'

export const meta = {
  title: 'My Post',
  date: '2024-01-01',
}

# My Post

This is a paragraph with **bold** text.

<Alert type="warning">
  Be careful with this!
</Alert>

<Chart data={data} />

{/* A comment */}

Some more text.

```javascript
const x = <div>Not JSX</div>
```

Final paragraph.
"#;
    let result = MdxExtractor::strip_mdx_syntax(input);
    assert!(!result.contains("import"));
    assert!(!result.contains("export"));
    assert!(!result.contains("<Alert"));
    assert!(!result.contains("<Chart"));
    assert!(!result.contains("comment"));
    assert!(result.contains("# My Post"));
    assert!(result.contains("**bold**"));
    assert!(result.contains("Be careful with this!"));
    assert!(result.contains("Some more text."));
    assert!(result.contains("const x = <div>Not JSX</div>"));
    assert!(result.contains("Final paragraph."));
}

#[test]
fn test_empty_content() {
    let result = MdxExtractor::strip_mdx_syntax("");
    assert!(result.is_empty());
}

#[test]
fn mdx_test_plugin_interface() {
    let extractor = MdxExtractor::new();
    assert_eq!(extractor.name(), "mdx-extractor");
    assert_eq!(extractor.version(), VERSION);
    assert_eq!(extractor.priority(), 50);
    assert_eq!(extractor.supported_mime_types(), &["text/mdx", "text/x-mdx"]);
}

#[test]
fn test_count_braces_balanced() {
    assert_eq!(count_braces("{ a: 1 }"), 0);
}

#[test]
fn test_count_braces_opening() {
    assert_eq!(count_braces("const x = {"), 1);
}

#[test]
fn test_count_braces_closing() {
    assert_eq!(count_braces("}"), -1);
}

#[test]
fn test_count_braces_nested() {
    assert_eq!(count_braces("{ a: { b: 1 }"), 1);
}

#[test]
fn test_count_braces_none() {
    assert_eq!(count_braces("no braces here"), 0);
}

#[test]
fn mdx_collects_stripped_component_tags() {
    let input = "<Alert type=\"warning\">\nBe careful!\n</Alert>\n<Chart data={data} />\n";
    let (text, blocks) = MdxExtractor::strip_mdx_syntax_collecting(input);
    assert_eq!(text, "Be careful!\n");
    assert_eq!(
        blocks,
        vec![
            "<Alert type=\"warning\">".to_string(),
            "</Alert>".to_string(),
            "<Chart data={data} />".to_string()
        ]
    );
}

#[test]
fn mdx_inline_comment_and_tag_removed_text_kept() {
    let result = MdxExtractor::strip_mdx_syntax("Hi {/* note */} <Badge>new</Badge> there\n");
    assert_eq!(result, "Hi new there\n");
}

#[test]
fn mdx_unclosed_fence_keeps_everything_after() {
    let result = MdxExtractor::strip_mdx_syntax("```\nimport x from 'y'\n");
    assert_eq!(result, "```\nimport x from 'y'\n");
}

#[test]
fn mdx_crlf_lines() {
    let result = MdxExtractor::strip_mdx_syntax("import a from 'b'\r\n# T\r\n");
    assert_eq!(result, "# T\n");
}
