use kreuzberg::fictionbook::FictionBookExtractor;
use kreuzberg::frontmatter::cells_to_markdown;
use kreuzberg::html::HtmlExtractor;
use kreuzberg::hwp::HwpExtractor;
use kreuzberg::image::ImageExtractor;
use kreuzberg::iwork::keynote::KeynoteExtractor;
use kreuzberg::iwork::numbers::NumbersExtractor;
use kreuzberg::iwork::pages::PagesExtractor;
use kreuzberg::jats::JatsExtractor;
use kreuzberg::jupyter::JupyterExtractor;
use kreuzberg::markdown::MarkdownExtractor;
use kreuzberg::odt::OdtExtractor;
use kreuzberg::opml::OpmlExtractor;
use kreuzberg::orgmode::OrgModeExtractor;
use kreuzberg::plugins::{DocumentExtractorRegistry, KreuzbergError, VERSION};

#[test]
fn test_fictionbook_extractor_plugin_interface() {
    let extractor = FictionBookExtractor::new();
    assert_eq!(extractor.name(), "fictionbook-extractor");
    assert_eq!(extractor.priority(), 50);
    assert!(!extractor.supported_mime_types().is_empty());
}

#[test]
fn test_fictionbook_extractor_default() {
    let extractor = FictionBookExtractor;
    assert_eq!(extractor.name(), "fictionbook-extractor");
}

#[test]
fn test_fictionbook_extractor_supported_mime_types() {
    let extractor = FictionBookExtractor::new();
    let supported = extractor.supported_mime_types();
    assert!(supported.contains(&"application/x-fictionbook+xml"));
    assert!(supported.contains(&"text/x-fictionbook"));
}

#[test]
fn test_fictionbook_extractor_initialize_shutdown() {
    let extractor = FictionBookExtractor::new();
    assert!(extractor.initialize().is_ok());
    assert!(extractor.shutdown().is_ok());
}

#[test]
fn test_html_extractor_plugin_interface() {
    let extractor = HtmlExtractor::new();
    assert_eq!(extractor.name(), "html-extractor");
    assert!(extractor.initialize().is_ok());
    assert!(extractor.shutdown().is_ok());
}

#[test]
fn test_html_extractor_supported_mime_types() {
    let extractor = HtmlExtractor::new();
    let mime_types = extractor.supported_mime_types();
    assert_eq!(mime_types.len(), 2);
    assert!(mime_types.contains(&"text/html"));
    assert!(mime_types.contains(&"application/xhtml+xml"));
}

#[test]
fn test_hwp_extractor_plugin_interface() {
    let extractor = HwpExtractor::new();
    assert_eq!(extractor.name(), "hwp-extractor");
    assert_eq!(extractor.version(), VERSION);
    assert_eq!(extractor.priority(), 50);
    assert_eq!(extractor.supported_mime_types(), &["application/x-hwp"]);
}

#[test]
fn test_hwp_extractor_initialize_shutdown() {
    let extractor = HwpExtractor::new();
    assert!(extractor.initialize().is_ok());
    assert!(extractor.shutdown().is_ok());
}

#[test]
fn test_hwpx_mime_not_routed_to_hwp_extractor() {
    let mut registry = DocumentExtractorRegistry::new();
    registry.register(HwpExtractor::new().info()).unwrap();

    let result = registry.get("application/haansofthwpx");
    assert!(
        matches!(result, Err(KreuzbergError::UnsupportedFormat(_))),
        "application/haansofthwpx must not be routed to HwpExtractor"
    );
}

#[test]
fn test_image_plugin_interface() {
    let extractor = ImageExtractor::new();
    assert_eq!(extractor.name(), "image-extractor");
    assert_eq!(extractor.version(), VERSION);
    assert!(extractor.supported_mime_types().contains(&"image/png"));
    assert!(extractor.supported_mime_types().contains(&"image/jpeg"));
    assert!(extractor.supported_mime_types().contains(&"image/webp"));
    assert_eq!(extractor.priority(), 50);
}

#[test]
fn test_image_extractor_default() {
    let extractor = ImageExtractor;
    assert_eq!(extractor.name(), "image-extractor");
}

#[test]
fn test_image_extractor_supports_alias_mime_types() {
    let extractor = ImageExtractor::new();
    let supported = extractor.supported_mime_types();
    assert!(supported.contains(&"image/pjpeg"));
    assert!(supported.contains(&"image/x-bmp"));
    assert!(supported.contains(&"image/x-ms-bmp"));
    assert!(supported.contains(&"image/x-tiff"));
    assert!(supported.contains(&"image/x-portable-anymap"));
}

#[test]
fn test_keynote_extractor_plugin_interface() {
    let extractor = KeynoteExtractor::new();
    assert_eq!(extractor.name(), "iwork-keynote-extractor");
    assert!(extractor.initialize().is_ok());
    assert!(extractor.shutdown().is_ok());
}

#[test]
fn test_keynote_extractor_supported_mime_types() {
    let extractor = KeynoteExtractor::new();
    let types = extractor.supported_mime_types();
    assert!(types.contains(&"application/x-iwork-keynote-sffkey"));
}

#[test]
fn test_numbers_extractor_plugin_interface() {
    let extractor = NumbersExtractor::new();
    assert_eq!(extractor.name(), "iwork-numbers-extractor");
    assert!(extractor.initialize().is_ok());
    assert!(extractor.shutdown().is_ok());
}

#[test]
fn test_numbers_extractor_supported_mime_types() {
    let extractor = NumbersExtractor::new();
    let types = extractor.supported_mime_types();
    assert!(types.contains(&"application/x-iwork-numbers-sffnumbers"));
}

#[test]
fn test_pages_extractor_plugin_interface() {
    let extractor = PagesExtractor::new();
    assert_eq!(extractor.name(), "iwork-pages-extractor");
    assert!(extractor.initialize().is_ok());
    assert!(extractor.shutdown().is_ok());
}

#[test]
fn test_pages_extractor_supported_mime_types() {
    let extractor = PagesExtractor::new();
    let types = extractor.supported_mime_types();
    assert!(types.contains(&"application/x-iwork-pages-sffpages"));
}

#[test]
fn test_jats_extractor_plugin_interface() {
    let extractor = JatsExtractor::new();
    assert_eq!(extractor.name(), "jats-extractor");
    assert!(extractor.initialize().is_ok());
    assert!(extractor.shutdown().is_ok());
}

#[test]
fn test_jats_extractor_supported_mime_types() {
    let extractor = JatsExtractor::new();
    let mime_types = extractor.supported_mime_types();
    assert_eq!(mime_types.len(), 2);
    assert!(mime_types.contains(&"application/x-jats+xml"));
    assert!(mime_types.contains(&"text/jats"));
}

#[test]
fn test_jats_extractor_priority() {
    let extractor = JatsExtractor::new();
    assert_eq!(extractor.priority(), 50);
}

#[test]
fn test_jupyter_extractor_plugin_interface() {
    let extractor = JupyterExtractor::new();
    assert_eq!(extractor.name(), "jupyter-extractor");
    assert_eq!(extractor.version(), VERSION);
    assert_eq!(extractor.priority(), 50);
    assert!(extractor.supported_mime_types().contains(&"application/x-ipynb+json"));
}

#[test]
fn test_can_extract_markdown_mime_types() {
    let extractor = MarkdownExtractor::new();
    let mime_types = extractor.supported_mime_types();

    assert!(mime_types.contains(&"text/markdown"));
    assert!(mime_types.contains(&"text/x-markdown"));
    assert!(mime_types.contains(&"text/x-gfm"));
    assert!(mime_types.contains(&"text/x-commonmark"));
    assert!(mime_types.contains(&"text/x-markdown-extra"));
    assert!(mime_types.contains(&"text/x-multimarkdown"));
}

#[test]
fn markdown_test_plugin_interface() {
    let extractor = MarkdownExtractor::new();
    assert_eq!(extractor.name(), "markdown-extractor");
    assert_eq!(extractor.version(), VERSION);
    assert_eq!(extractor.priority(), 50);
    assert!(extractor.supported_mime_types().contains(&"text/markdown"));
}

#[test]
fn markdown_test_cells_to_markdown() {
    let cells = vec![
        vec!["Header 1".to_string(), "Header 2".to_string()],
        vec!["Data 1".to_string(), "Data 2".to_string()],
        vec!["Data 3".to_string(), "Data 4".to_string()],
    ];

    let markdown = cells_to_markdown(&cells);
    assert!(markdown.contains("Header 1"));
    assert!(markdown.contains("Data 1"));
    assert!(markdown.contains("---"));
    let lines: Vec<&str> = markdown.lines().collect();
    assert!(lines.len() >= 4);
}

#[test]
fn odt_plugin_interface() {
    let extractor = OdtExtractor::new();
    assert_eq!(extractor.name(), "odt-extractor");
    assert_eq!(extractor.priority(), 60);
    assert!(extractor.supported_mime_types().contains(&"application/vnd.oasis.opendocument.text"));
    assert!(extractor.initialize().is_ok());
    assert!(extractor.shutdown().is_ok());
}

#[test]
fn test_opml_extractor_plugin_interface() {
    let extractor = OpmlExtractor::new();
    assert_eq!(extractor.name(), "opml-extractor");
    assert_eq!(extractor.version(), VERSION);
    assert_eq!(extractor.priority(), 55);
    assert!(!extractor.supported_mime_types().is_empty());
}

#[test]
fn test_opml_extractor_default() {
    let extractor = OpmlExtractor;
    assert_eq!(extractor.name(), "opml-extractor");
}

#[test]
fn test_opml_extractor_initialize_shutdown() {
    let extractor = OpmlExtractor::new();
    assert!(extractor.initialize().is_ok());
    assert!(extractor.shutdown().is_ok());
}

#[test]
fn test_opml_supported_mime_types() {
    let extractor = OpmlExtractor::new();
    let supported = extractor.supported_mime_types();
    assert!(supported.contains(&"text/x-opml"));
    assert!(supported.contains(&"application/xml+opml"));
    assert!(supported.contains(&"application/x-opml+xml"));
}

#[test]
fn test_orgmode_extractor_plugin_interface() {
    let extractor = OrgModeExtractor::new();
    assert_eq!(extractor.name(), "orgmode-extractor");
    assert_eq!(extractor.version(), VERSION);
    assert_eq!(extractor.priority(), 50);
    assert!(!extractor.supported_mime_types().is_empty());
}

#[test]
fn test_orgmode_extractor_supports_text_x_org() {
    let extractor = OrgModeExtractor::new();
    assert!(extractor.supported_mime_types().contains(&"text/x-org"));
}

#[test]
fn test_orgmode_extractor_default() {
    let extractor = OrgModeExtractor;
    assert_eq!(extractor.name(), "orgmode-extractor");
}

#[test]
fn test_orgmode_extractor_initialize_shutdown() {
    let extractor = OrgModeExtractor::new();
    assert!(extractor.initialize().is_ok());
    assert!(extractor.shutdown().is_ok());
}

#[test]
fn test_orgmode_extractor_supported_mime_types() {
    let extractor = OrgModeExtractor::new();
    let supported = extractor.supported_mime_types();
    assert!(supported.contains(&"text/x-org"));
}
