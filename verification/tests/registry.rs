use kreuzberg::extractors::{ensure_initialized, register_default_extractors};
use kreuzberg::latex::LatexExtractor;
use kreuzberg::mdx::MdxExtractor;
use kreuzberg::odt::OdtExtractor;
use kreuzberg::plugins::{DocumentExtractorRegistry, ExtractorInfo, KreuzbergError};

#[test]
fn test_register_default_extractors() {
    let mut registry = DocumentExtractorRegistry::new();
    register_default_extractors(&mut registry).expect("Failed to register extractors");
    let extractor_names = registry.list();

    let expected = [
        "markdown-extractor",
        "image-extractor",
        "jats-extractor",
        "fictionbook-extractor",
        "latex-extractor",
        "jupyter-extractor",
        "orgmode-extractor",
        "opml-extractor",
        "odt-extractor",
        "hwp-extractor",
        "iwork-pages-extractor",
        "iwork-numbers-extractor",
        "iwork-keynote-extractor",
        "mdx-extractor",
        "html-extractor",
    ];
    for name in expected {
        assert!(extractor_names.contains(&name.to_string()), "missing {name}");
    }
    assert_eq!(extractor_names.len(), expected.len());
}

#[test]
fn test_ensure_initialized() {
    let mut registry = DocumentExtractorRegistry::new();
    let mut initialized = false;
    ensure_initialized(&mut registry, &mut initialized).expect("Failed to ensure extractors initialized");
    assert!(initialized);
    assert!(!registry.is_empty());
}

#[test]
fn ensure_initialized_reregisters_after_clear() {
    let mut registry = DocumentExtractorRegistry::new();
    let mut initialized = true;
    ensure_initialized(&mut registry, &mut initialized).unwrap();
    assert_eq!(registry.list().len(), 15);
}

#[test]
fn register_twice_keeps_one_entry() {
    let mut registry = DocumentExtractorRegistry::new();
    registry.register(LatexExtractor::new().info()).unwrap();
    registry.register(LatexExtractor::new().info()).unwrap();
    assert_eq!(registry.list(), vec!["latex-extractor".to_string()]);
}

#[test]
fn register_same_name_replaces_in_place() {
    let mut registry = DocumentExtractorRegistry::new();
    registry.register(MdxExtractor::new().info()).unwrap();
    registry.register(LatexExtractor::new().info()).unwrap();
    let replacement = ExtractorInfo { name: "mdx-extractor".to_string(), priority: 7, mime_types: vec!["text/x-other".to_string()] };
    registry.register(replacement).unwrap();
    assert_eq!(registry.list(), vec!["mdx-extractor".to_string(), "latex-extractor".to_string()]);
    assert!(registry.get("text/mdx").is_err());
    assert_eq!(registry.get("text/x-other").unwrap().priority, 7);
}

#[test]
fn get_prefers_higher_priority_then_earlier() {
    let mut registry = DocumentExtractorRegistry::new();
    let a = ExtractorInfo { name: "a".to_string(), priority: 50, mime_types: vec!["x/y".to_string()] };
    let b = ExtractorInfo { name: "b".to_string(), priority: 60, mime_types: vec!["x/y".to_string()] };
    let c = ExtractorInfo { name: "c".to_string(), priority: 60, mime_types: vec!["x/y".to_string()] };
    registry.register(a).unwrap();
    registry.register(b).unwrap();
    registry.register(c).unwrap();
    assert_eq!(registry.get("x/y").unwrap().name, "b");
}

#[test]
fn get_unknown_mime_is_unsupported_format() {
    let mut registry = DocumentExtractorRegistry::new();
    registry.register(OdtExtractor::new().info()).unwrap();
    match registry.get("application/unknown") {
        Err(KreuzbergError::UnsupportedFormat(m)) => assert_eq!(m, "application/unknown"),
        _ => panic!("expected UnsupportedFormat"),
    }
    assert_eq!(registry.get("application/vnd.oasis.opendocument.text").unwrap().name, "odt-extractor");
}
