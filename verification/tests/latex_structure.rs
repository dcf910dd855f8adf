use kreuzberg::document::{ElementKind, InternalDocument, RelKind, RelTarget, UriKind};
use kreuzberg::latex::LatexExtractor;

fn figure_source() -> &'static str {
    r#"\documentclass{article}
\begin{document}
\begin{figure}
\includegraphics{photo.png}
\caption{A photo}
\end{figure}
\end{document}"#
}

fn texts(doc: &InternalDocument) -> Vec<String> {
    doc.elements.iter().map(|e| e.text.clone()).collect()
}

#[test]
fn test_latex_inject_placeholders_true() {
    let doc = LatexExtractor::build_internal_document(figure_source(), true);
    let has_image = doc.elements.iter().any(|e| e.text.contains("[image:"));
    assert!(has_image, "expected image placeholder with inject_placeholders=true");
}

#[test]
fn test_latex_inject_placeholders_false() {
    let doc = LatexExtractor::build_internal_document(figure_source(), false);
    let has_image = doc.elements.iter().any(|e| e.text.contains("[image:"));
    assert!(!has_image, "expected no image placeholder with inject_placeholders=false");
}

#[test]
fn latex_structure_figure_caption_relationship() {
    let doc = LatexExtractor::build_internal_document(figure_source(), true);
    assert_eq!(doc.source_format, "latex");
    assert_eq!(texts(&doc), vec!["[image: photo.png]".to_string(), "A photo".to_string()]);
    assert_eq!(doc.uris.len(), 1);
    assert_eq!(doc.uris[0].url, "photo.png");
    assert_eq!(doc.uris[0].label.as_deref(), Some("A photo"));
    assert_eq!(doc.uris[0].kind, UriKind::Image);
    assert_eq!(doc.relationships.len(), 1);
    assert_eq!(doc.relationships[0].source, 1);
    assert_eq!(doc.relationships[0].target, RelTarget::Index(0));
    assert_eq!(doc.relationships[0].kind, RelKind::Caption);
}

#[test]
fn latex_structure_metadata_and_headings() {
    let src = "\\title{My Paper}\n\\author{Ann}\n\\begin{document}\n\\section{Intro}\\label{sec:intro}\nSome \\textbf{bold} text.\n\\subsection*{More}\n\\end{document}\nafter";
    let doc = LatexExtractor::build_internal_document(src, false);
    assert_eq!(doc.elements[0].kind, ElementKind::MetadataBlock);
    assert_eq!(
        doc.elements[0].attributes,
        vec![("title".to_string(), "My Paper".to_string()), ("author".to_string(), "Ann".to_string())]
    );
    assert_eq!(doc.elements[1].kind, ElementKind::Heading { level: 1 });
    assert_eq!(doc.elements[1].text, "Intro");
    assert_eq!(doc.elements[1].anchor.as_deref(), Some("sec:intro"));
    assert_eq!(doc.elements[2].kind, ElementKind::Paragraph);
    assert_eq!(doc.elements[2].text, "Some bold text.");
    assert_eq!(doc.elements[2].annotations.len(), 1);
    assert_eq!(doc.elements[3].kind, ElementKind::Heading { level: 2 });
    assert_eq!(doc.elements[3].text, "More");
    assert_eq!(doc.elements.len(), 4);
}

#[test]
fn latex_structure_chapters_shift_levels() {
    let src = "\\begin{document}\n\\chapter{One}\n\\section{Two}\n\\end{document}";
    let doc = LatexExtractor::build_internal_document(src, false);
    assert_eq!(doc.elements[0].kind, ElementKind::Heading { level: 1 });
    assert_eq!(doc.elements[1].kind, ElementKind::Heading { level: 2 });
}

#[test]
fn latex_structure_refs_and_citations() {
    let src = "\\begin{document}\nSee \\ref{fig:a} and \\cite{k1, k2}.\n\\end{document}";
    let doc = LatexExtractor::build_internal_document(src, false);
    let t = texts(&doc);
    assert_eq!(t[0], "[fig:a]");
    assert_eq!(t[1], "[k1]");
    assert_eq!(t[2], "[k2]");
    assert_eq!(doc.relationships.len(), 3);
    assert_eq!(doc.relationships[0].target, RelTarget::Key("fig:a".to_string()));
    assert_eq!(doc.relationships[0].kind, RelKind::CrossReference);
    assert_eq!(doc.relationships[1].source, 1);
    assert_eq!(doc.relationships[2].target, RelTarget::Key("k2".to_string()));
    assert_eq!(doc.relationships[2].kind, RelKind::CitationReference);
    assert_eq!(doc.elements[3].kind, ElementKind::Paragraph);
}

#[test]
fn latex_structure_footnotes() {
    let src = "\\begin{document}\nText\\footnote{A note} here.\n\\end{document}";
    let doc = LatexExtractor::build_internal_document(src, false);
    assert_eq!(doc.elements[0].kind, ElementKind::FootnoteRef);
    assert_eq!(doc.elements[0].text, "A note");
    assert_eq!(doc.elements[0].attribute("label"), Some("fn:A note"));
    assert_eq!(doc.elements[1].kind, ElementKind::FootnoteDefinition);
    assert_eq!(doc.elements[2].text, "Text here.");
}

#[test]
fn latex_structure_lists_nested() {
    let src = "\\begin{document}\n\\begin{enumerate}\n\\item First\ncontinued\n\\begin{itemize}\n\\item Inner\n\\end{itemize}\n\\item[Term] Second\n\\end{enumerate}\n\\end{document}";
    let doc = LatexExtractor::build_internal_document(src, false);
    let kinds: Vec<ElementKind> = doc.elements.iter().map(|e| e.kind).collect();
    assert_eq!(
        kinds,
        vec![
            ElementKind::ListStart { ordered: true },
            ElementKind::ListItem { ordered: true },
            ElementKind::ListStart { ordered: false },
            ElementKind::ListItem { ordered: false },
            ElementKind::ListEnd,
            ElementKind::ListItem { ordered: true },
            ElementKind::ListEnd,
        ]
    );
    assert_eq!(doc.elements[1].text, "First continued");
    assert_eq!(doc.elements[3].text, "Inner");
    assert_eq!(doc.elements[5].text, "Term: Second");
}

#[test]
fn latex_structure_table_with_caption() {
    let src = "\\begin{document}\n\\begin{table}\n\\caption{Numbers}\\label{tab:n}\n\\begin{tabular}{cc}\na & b \\\\\n1 & 2 \\\\\n\\end{tabular}\n\\end{table}\n\\end{document}";
    let doc = LatexExtractor::build_internal_document(src, false);
    assert_eq!(doc.elements[0].kind, ElementKind::Table);
    assert_eq!(
        doc.elements[0].cells,
        vec![vec!["a".to_string(), "b".to_string()], vec!["1".to_string(), "2".to_string()]]
    );
    assert_eq!(doc.elements[0].anchor.as_deref(), Some("tab:n"));
    assert_eq!(doc.elements[1].text, "Numbers");
    assert_eq!(doc.relationships[0].target, RelTarget::Index(0));
    assert_eq!(doc.relationships[0].kind, RelKind::Caption);
}

#[test]
fn latex_structure_math_code_quote() {
    let src = "\\begin{document}\n\\begin{equation}\\label{eq:1}\nx = 1\n\\end{equation}\n\\[\na + b\n\\]\n\\begin{lstlisting}[language=Python]\nprint(1)\n\\end{lstlisting}\n\\begin{quote}\nQuoted\n\\end{quote}\n\\begin{center}\\rule{1cm}{1pt}\\end{center}\n\\end{document}";
    let doc = LatexExtractor::build_internal_document(src, false);
    assert_eq!(doc.elements[0].kind, ElementKind::Formula);
    assert_eq!(doc.elements[0].text, "\\begin{equation}\nx = 1\n\\end{equation}");
    assert_eq!(doc.elements[1].kind, ElementKind::Formula);
    assert_eq!(doc.elements[1].text, "a + b");
    assert_eq!(doc.elements[2].kind, ElementKind::Code);
    assert_eq!(doc.elements[2].text, "print(1)");
    assert_eq!(doc.elements[2].attribute("language"), Some("Python"));
    assert_eq!(doc.elements[3].kind, ElementKind::QuoteStart);
    assert_eq!(doc.elements[4].text, "Quoted");
    assert_eq!(doc.elements[5].kind, ElementKind::QuoteEnd);
    assert_eq!(doc.elements[6].text, "---");
    assert_eq!(doc.elements.len(), 7);
}

#[test]
fn latex_structure_plain_tex_and_links() {
    let src = "Hello \\href{https://x.org}{site}\n\\bye\nignored";
    let doc = LatexExtractor::build_internal_document(src, false);
    assert_eq!(texts(&doc), vec!["Hello site".to_string()]);
    assert_eq!(doc.uris.len(), 1);
    assert_eq!(doc.uris[0].url, "https://x.org");
    assert_eq!(doc.uris[0].label.as_deref(), Some("site"));
    assert_eq!(doc.uris[0].kind, UriKind::Hyperlink);
}

#[test]
fn latex_structure_preamble_skipped_and_stray_image() {
    let src = "\\usepackage{x}\npreamble text\n\\begin{document}\n% comment\n\\maketitle\n\\includegraphics[width=2cm]{a.png}\n\\end{document}";
    let doc = LatexExtractor::build_internal_document(src, true);
    assert_eq!(texts(&doc), vec!["[image: a.png]".to_string()]);
    assert_eq!(doc.uris[0].url, "a.png");
    assert_eq!(doc.uris[0].label, None);
}
