use kreuzberg::latex::LatexExtractor;
use kreuzberg::plugins::VERSION;
use kreuzberg::types::AnnotationKind;

#[test]
fn latex_test_basic_title_extraction() {
    let latex = r#"\title{Hello World}"#;
    let (_, metadata, _) = LatexExtractor::extract_from_latex(latex);
    assert_eq!(metadata.additional_get("title").as_deref(), Some("Hello World"));
}

#[test]
fn latex_test_author_extraction() {
    let latex = r#"\author{John Doe}"#;
    let (_, metadata, _) = LatexExtractor::extract_from_latex(latex);
    assert!(metadata.additional_get("author").is_some());
}

#[test]
fn latex_test_section_extraction() {
    let latex = r#"\begin{document}\section{Introduction}\end{document}"#;
    let (content, _, _) = LatexExtractor::extract_from_latex(latex);
    assert!(content.contains("Introduction"));
}

#[test]
fn mod_test_basic_title_extraction() {
    let latex = r#"\title{Hello World}"#;
    let (_, metadata, _) = LatexExtractor::extract_from_latex(latex);
    assert_eq!(metadata.title.as_deref(), Some("Hello World"));
}

#[test]
fn mod_test_author_extraction() {
    let latex = r#"\author{John Doe}"#;
    let (_, metadata, _) = LatexExtractor::extract_from_latex(latex);
    assert!(metadata.created_by.is_some());
}

#[test]
fn mod_test_section_extraction() {
    let latex = r#"\begin{document}\section{Introduction}\end{document}"#;
    let (content, _, _) = LatexExtractor::extract_from_latex(latex);
    assert!(content.contains("Introduction"));
}

#[test]
fn test_strip_inline_bold() {
    let (text, anns) = LatexExtractor::strip_inline_commands("hello \\textbf{world} end");
    assert_eq!(text, "hello world end");
    assert_eq!(anns.len(), 1);
    assert!(matches!(anns[0].kind, AnnotationKind::Bold));
    assert_eq!(&text[anns[0].start as usize..anns[0].end as usize], "world");
}

#[test]
fn test_strip_inline_italic_variants() {
    let (text, anns) = LatexExtractor::strip_inline_commands("\\emph{a} and \\textit{b}");
    assert_eq!(text, "a and b");
    assert_eq!(anns.len(), 2);
    assert!(anns.iter().all(|a| matches!(a.kind, AnnotationKind::Italic)));
}

#[test]
fn test_strip_inline_underline_code() {
    let (text, anns) = LatexExtractor::strip_inline_commands("\\underline{u} \\texttt{c}");
    assert_eq!(text, "u c");
    assert!(anns.iter().any(|a| matches!(a.kind, AnnotationKind::Underline)));
    assert!(anns.iter().any(|a| matches!(a.kind, AnnotationKind::Code)));
}

#[test]
fn test_strip_inline_nested() {
    let (text, anns) = LatexExtractor::strip_inline_commands("\\textbf{\\emph{nested}}");
    assert_eq!(text, "nested");
    assert_eq!(anns.len(), 2);
    assert!(anns.iter().any(|a| matches!(a.kind, AnnotationKind::Bold)));
    assert!(anns.iter().any(|a| matches!(a.kind, AnnotationKind::Italic)));
}

#[test]
fn test_strip_inline_href() {
    let (text, anns) = LatexExtractor::strip_inline_commands("see \\href{https://example.com}{link text} here");
    assert_eq!(text, "see link text here");
    assert_eq!(anns.len(), 1);
    match &anns[0].kind {
        AnnotationKind::Link { url, .. } => assert_eq!(url, "https://example.com"),
        _ => panic!("expected Link annotation"),
    }
    assert_eq!(&text[anns[0].start as usize..anns[0].end as usize], "link text");
}

#[test]
fn test_strip_no_commands() {
    let (text, anns) = LatexExtractor::strip_inline_commands("plain text only");
    assert_eq!(text, "plain text only");
    assert!(anns.is_empty());
}

#[test]
fn test_extract_includegraphics_path() {
    assert_eq!(
        LatexExtractor::extract_includegraphics_path("\\includegraphics[width=5cm]{img/photo.png}"),
        Some("img/photo.png".to_string())
    );
    assert_eq!(
        LatexExtractor::extract_includegraphics_path("\\includegraphics{simple.jpg}"),
        Some("simple.jpg".to_string())
    );
    assert_eq!(LatexExtractor::extract_includegraphics_path("no graphics here"), None);
}

#[test]
fn test_extract_caption() {
    assert_eq!(
        LatexExtractor::extract_caption("\\caption{A nice figure}"),
        Some("A nice figure".to_string())
    );
    assert_eq!(LatexExtractor::extract_caption("no caption"), None);
}

#[test]
fn test_read_braced_content_nested() {
    let (content, consumed) = LatexExtractor::read_braced_content("outer {inner} end}rest").unwrap();
    assert_eq!(content, "outer {inner} end");
    assert_eq!(&"outer {inner} end}rest"[consumed..], "rest");
}

#[test]
fn latex_plugin_interface() {
    let e = LatexExtractor::new();
    assert_eq!(e.name(), "latex-extractor");
    assert_eq!(e.version(), VERSION);
    assert_eq!(e.priority(), 50);
    assert_eq!(e.supported_mime_types(), vec!["application/x-latex", "text/x-tex"]);
}

#[test]
fn latex_table_extraction() {
    let latex = "\\begin{document}\n\\begin{tabular}{cc}\nA & B \\\\\n1 & 2 \\\\\n\\end{tabular}\n\\end{document}";
    let (_, _, tables) = LatexExtractor::extract_from_latex(latex);
    assert_eq!(tables.len(), 1);
    assert_eq!(tables[0].cells, vec![vec!["A".to_string(), "B".to_string()], vec!["1".to_string(), "2".to_string()]]);
}

#[test]
fn latex_inline_annotation_offsets_are_bytes() {
    let (text, anns) = LatexExtractor::strip_inline_commands("é \\textbf{ü}");
    assert_eq!(text, "é ü");
    assert_eq!(anns[0].start, 3);
    assert_eq!(anns[0].end, 5);
}

#[test]
fn date_line_is_kept_among_additional_entries_only() {
    let (_, metadata, _) = LatexExtractor::extract_from_latex("\\date{2024 \\& 2025}");
    assert_eq!(metadata.created_at, None);
    assert_eq!(metadata.additional, vec![("date".to_string(), "2024 & 2025".to_string())]);
    assert_eq!(metadata.title, None);
}
