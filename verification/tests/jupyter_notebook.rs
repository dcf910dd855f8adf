use kreuzberg::document::{ElementKind, InternalDocument, UriKind};
use kreuzberg::json::{parse_json, JsonValue};
use kreuzberg::jupyter::JupyterExtractor;
use kreuzberg::types::{AnnotationKind, TextAnnotation};

fn notebook(text: &str) -> JsonValue {
    parse_json(text.as_bytes()).expect("valid JSON")
}

fn doc_of(text: &str) -> InternalDocument {
    JupyterExtractor::build_internal_document(&notebook(text)).expect("has cells")
}

fn ann(start: u32, end: u32, kind: AnnotationKind) -> TextAnnotation {
    TextAnnotation { start, end, kind }
}

#[test]
fn notebook_code_cell_attributes_and_error_output() {
    let doc = doc_of(
        r#"{
            "cells": [
                {
                    "cell_type": "code",
                    "source": ["1/0"],
                    "execution_count": 5,
                    "outputs": [
                        {
                            "output_type": "error",
                            "ename": "ZeroDivisionError",
                            "evalue": "division by zero",
                            "traceback": ["Traceback line 1"]
                        }
                    ],
                    "metadata": {"tags": ["test-tag", "important"]}
                }
            ],
            "metadata": {
                "kernelspec": {"name": "python3", "language": "python"},
                "language_info": {"name": "python", "version": "3.10.0"}
            },
            "nbformat": 4,
            "nbformat_minor": 5
        }"#,
    );
    assert_eq!(doc.source_format, "jupyter");
    let kinds: Vec<ElementKind> = doc.elements.iter().map(|e| e.kind).collect();
    assert_eq!(kinds, vec![ElementKind::Code, ElementKind::Paragraph]);
    let code = &doc.elements[0];
    assert_eq!(code.text, "1/0");
    assert_eq!(
        code.attributes,
        vec![
            ("language".to_string(), "python".to_string()),
            ("execution_count".to_string(), "5".to_string()),
            ("tags".to_string(), "test-tag,important".to_string()),
        ]
    );
    assert_eq!(doc.elements[1].text, "Error (ZeroDivisionError): division by zero");
}

#[test]
fn notebook_markdown_cell_headings_paragraphs_links() {
    let doc = doc_of(
        r###"{"cells": [{"cell_type": "markdown", "source": ["# Intro\n", "Some **bold** and *it* and `x`\n", "see [docs](https://d.org) ![pic](p.png)\n", "## \n", "tail"]}]}"###,
    );
    let kinds: Vec<ElementKind> = doc.elements.iter().map(|e| e.kind).collect();
    assert_eq!(kinds, vec![ElementKind::Heading { level: 1 }, ElementKind::Paragraph, ElementKind::Paragraph]);
    assert_eq!(doc.elements[0].text, "Intro");
    assert_eq!(doc.elements[1].text, "Some bold and it and x\nsee [docs](https://d.org) ![pic](p.png)");
    assert_eq!(
        doc.elements[1].annotations,
        vec![ann(5, 9, AnnotationKind::Bold), ann(14, 16, AnnotationKind::Italic), ann(21, 22, AnnotationKind::Code)]
    );
    assert_eq!(doc.elements[2].text, "tail");
    assert_eq!(doc.uris.len(), 2);
    assert_eq!(doc.uris[0].url, "https://d.org");
    assert_eq!(doc.uris[0].label.as_deref(), Some("docs"));
    assert_eq!(doc.uris[0].kind, UriKind::Hyperlink);
    assert_eq!(doc.uris[1].url, "p.png");
    assert_eq!(doc.uris[1].kind, UriKind::Image);
}

#[test]
fn notebook_outputs_and_other_cells() {
    let doc = doc_of(
        r#"{
            "metadata": {"language_info": {"name": "julia"}},
            "cells": [
                {"cell_type": "code", "source": "x", "execution_count": null, "outputs": [
                    {"output_type": "stream", "text": ["a\n", "b\n"]},
                    {"output_type": "execute_result", "data": {"text/plain": "42"}},
                    {"output_type": "display_data", "data": {"image/png": "AAAA"}},
                    {"output_type": "error"}
                ]},
                {"cell_type": "raw", "source": "  raw text  "},
                {"cell_type": "markdown", "source": "   "}
            ]
        }"#,
    );
    let texts: Vec<&str> = doc.elements.iter().map(|e| e.text.as_str()).collect();
    assert_eq!(texts, vec!["x", "a\nb", "42", "Error (Unknown):", "raw text"]);
    assert_eq!(
        doc.elements[0].attributes,
        vec![("language".to_string(), "julia".to_string()), ("execution_count".to_string(), "null".to_string())]
    );
}

#[test]
fn notebook_without_cells_has_no_document() {
    assert!(JupyterExtractor::build_internal_document(&notebook(r#"{"metadata": {}}"#)).is_none());
    assert!(JupyterExtractor::build_internal_document(&notebook(r#"{"cells": {}}"#)).is_none());
    let empty = JupyterExtractor::build_internal_document(&notebook(r#"{"cells": []}"#)).unwrap();
    assert!(empty.elements.is_empty());
}

#[test]
fn notebook_language_from_language_info() {
    let nb = notebook(r#"{"metadata": {"language_info": {"name": "python"}}, "cells": []}"#);
    assert_eq!(JupyterExtractor::notebook_language(&nb).as_deref(), Some("python"));
    assert_eq!(JupyterExtractor::notebook_language(&notebook(r#"{"cells": []}"#)), None);
}

#[test]
fn scan_markdown_inline_markers_and_bytes() {
    let (text, anns) = JupyterExtractor::scan_markdown_inline("a **b** *c* `d` **e");
    assert_eq!(text, "a b c d **e");
    assert_eq!(
        anns,
        vec![ann(2, 3, AnnotationKind::Bold), ann(4, 5, AnnotationKind::Italic), ann(6, 7, AnnotationKind::Code)]
    );
    // Characters outside ASCII are copied byte by byte, each byte as a character.
    let (t2, _) = JupyterExtractor::scan_markdown_inline("é");
    assert_eq!(t2, "\u{c3}\u{a9}");
}

#[test]
fn markdown_links_of_text() {
    let uris = JupyterExtractor::extract_markdown_links(r"[a](#x) [](https://e.org) [m](mailto:q@r.s) ![](i.png) [n]()");
    let got: Vec<(String, Option<String>, UriKind)> =
        uris.into_iter().map(|u| (u.url, u.label, u.kind)).collect();
    assert_eq!(
        got,
        vec![
            ("#x".to_string(), Some("a".to_string()), UriKind::Anchor),
            ("https://e.org".to_string(), None, UriKind::Hyperlink),
            ("mailto:q@r.s".to_string(), Some("m".to_string()), UriKind::Email),
            ("i.png".to_string(), None, UriKind::Image),
        ]
    );
}

#[test]
fn output_text_of_each_kind() {
    let out = |t: &str| JupyterExtractor::collect_output_text(&notebook(t));
    assert_eq!(out(r#"{"output_type": "stream", "text": "hi"}"#), "hi");
    assert_eq!(out(r#"{"output_type": "display_data", "data": {"text/plain": ["a", "b"]}}"#), "ab");
    assert_eq!(out(r#"{"output_type": "error", "ename": "E", "evalue": "v"}"#), "Error (E): v");
    assert_eq!(out(r#"{"output_type": "other", "text": "x"}"#), "");
    assert_eq!(out(r#"{"text": "x"}"#), "");
}

fn entry<'a>(entries: &'a [(String, JsonValue)], key: &str) -> Option<&'a JsonValue> {
    entries.iter().find(|(k, _)| k == key).map(|(_, v)| v)
}

fn member<'a>(v: &'a JsonValue, key: &str) -> Option<&'a JsonValue> {
    match v {
        JsonValue::Object(m) => m.iter().find(|(k, _)| k == key).map(|(_, v)| v),
        _ => None,
    }
}

#[test]
fn notebook_metadata_execution_count_and_tags() {
    let nb = notebook(
        r#"{
            "cells": [
                {
                    "cell_type": "code",
                    "source": ["print('hello')"],
                    "execution_count": 5,
                    "outputs": [],
                    "metadata": {"tags": ["test-tag", "important"]}
                }
            ],
            "metadata": {
                "kernelspec": {"name": "python3", "language": "python"},
                "language_info": {"name": "python", "version": "3.10.0", "mimetype": "text/x-python"}
            },
            "nbformat": 4,
            "nbformat_minor": 5
        }"#,
    );
    let m = JupyterExtractor::notebook_metadata(&nb);
    let keys: Vec<&str> = m.iter().map(|(k, _)| k.as_str()).collect();
    assert_eq!(
        keys,
        vec![
            "kernelspec",
            "language_info",
            "language_name",
            "language_version",
            "language_mimetype",
            "nbformat",
            "nbformat_minor",
            "cell_count",
            "cells"
        ]
    );
    assert!(matches!(entry(&m, "language_name"), Some(JsonValue::String(s)) if s == "python"));
    assert!(matches!(entry(&m, "language_version"), Some(JsonValue::String(s)) if s == "3.10.0"));
    assert!(matches!(entry(&m, "nbformat_minor"), Some(JsonValue::Number(n)) if n == "5"));
    assert!(matches!(entry(&m, "cell_count"), Some(JsonValue::Number(n)) if n == "1"));
    let cells = match entry(&m, "cells") {
        Some(JsonValue::Array(c)) => c,
        _ => panic!("cells should be an array"),
    };
    assert_eq!(cells.len(), 1);
    assert!(matches!(member(&cells[0], "index"), Some(JsonValue::Number(n)) if n == "0"));
    assert!(matches!(member(&cells[0], "cell_type"), Some(JsonValue::String(s)) if s == "code"));
    assert!(matches!(member(&cells[0], "execution_count"), Some(JsonValue::Number(n)) if n == "5"));
    match member(&cells[0], "tags") {
        Some(JsonValue::Array(t)) => {
            assert!(matches!(&t[0], JsonValue::String(s) if s == "test-tag"));
            assert!(matches!(&t[1], JsonValue::String(s) if s == "important"));
        }
        _ => panic!("tags should be an array"),
    }
}

#[test]
fn notebook_bytes_give_language_entries_and_mime_type() {
    let bytes = br##"{"cells": [{"cell_type": "markdown", "source": ["# Title"], "metadata": {}}],
        "metadata": {"language_info": {"name": "python"}}, "nbformat": 4, "nbformat_minor": 5}"##;
    let doc = JupyterExtractor::extract_bytes(bytes, "application/x-ipynb+json").expect("valid notebook");
    assert_eq!(doc.mime_type, "application/x-ipynb+json");
    assert_eq!(doc.source_format, "jupyter");
    assert_eq!(doc.metadata.language.as_deref(), Some("python"));
    let entry = |k: &str| doc.metadata.additional.iter().find(|(key, _)| key == k).map(|(_, v)| v.clone());
    assert_eq!(entry("language_info").as_deref(), Some(r#"{"name":"python"}"#));
    assert_eq!(entry("language_name").as_deref(), Some(r#""python""#));
    assert_eq!(entry("nbformat").as_deref(), Some("4"));
    assert_eq!(entry("cell_count").as_deref(), Some("1"));
    assert!(!doc.elements.is_empty());
}

#[test]
fn notebook_bytes_that_are_not_json_fail() {
    assert!(JupyterExtractor::extract_bytes(b"{not json", "application/x-ipynb+json").is_err());
    let empty = JupyterExtractor::extract_bytes(b"{}", "application/x-ipynb+json").expect("valid JSON");
    assert!(empty.elements.is_empty());
}
