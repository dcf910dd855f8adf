use std::io::Write;

use kreuzberg::document::ElementKind;
use kreuzberg::iwork::keynote::KeynoteExtractor;
use kreuzberg::iwork::numbers::NumbersExtractor;
use kreuzberg::iwork::pages::PagesExtractor;
use kreuzberg::iwork::{collect_iwa_paths, extract_text_from_iwa_files, read_iwa_file, try_extract_metadata_from_zip};
use kreuzberg::plugins::KreuzbergError;

fn zip_of(entries: &[(&str, Vec<u8>)]) -> Vec<u8> {
    let mut buf = Vec::new();
    {
        let cursor = std::io::Cursor::new(&mut buf);
        let mut zip = zip::ZipWriter::new(cursor);
        let options = zip::write::SimpleFileOptions::default().compression_method(zip::CompressionMethod::Stored);
        for (name, data) in entries {
            zip.start_file(*name, options).unwrap();
            zip.write_all(data).unwrap();
        }
        zip.finish().unwrap();
    }
    buf
}

/// An uncompressed IWA stream holding string fields.
fn iwa_of(texts: &[&str]) -> Vec<u8> {
    let mut proto = Vec::new();
    for t in texts {
        proto.push(0x1A);
        proto.push(t.len() as u8);
        proto.extend_from_slice(t.as_bytes());
    }
    let mut iwa = vec![0x01, proto.len() as u8, 0, 0];
    iwa.extend_from_slice(&proto);
    iwa
}

#[test]
fn test_collect_iwa_paths_returns_only_iwa() {
    let buf = zip_of(&[("Index/Document.iwa", b"fake iwa content".to_vec()), ("metadata.xml", b"<xml/>".to_vec())]);
    let paths = collect_iwa_paths(&buf).expect("Should list IWA entries");
    assert_eq!(paths.len(), 1, "Should find exactly one .iwa entry");
    assert_eq!(paths[0], "Index/Document.iwa");
}

#[test]
fn not_a_zip_is_a_parsing_error() {
    match collect_iwa_paths(b"not a zip") {
        Err(KreuzbergError::Parsing(m)) => assert!(m.starts_with("Failed to open iWork ZIP: ")),
        _ => panic!("expected a parsing error"),
    }
}

#[test]
fn read_iwa_file_decodes_and_reports_missing() {
    let buf = zip_of(&[("Index/Document.iwa", iwa_of(&["Hello there"]))]);
    let data = read_iwa_file(&buf, "Index/Document.iwa").unwrap();
    assert_eq!(data[0], 0x1A);
    assert_eq!(
        read_iwa_file(&buf, "Index/Other.iwa"),
        Err(KreuzbergError::Parsing("IWA file not found in archive: Index/Other.iwa".to_string()))
    );
}

#[test]
fn whole_file_snappy_texts() {
    // A raw Snappy block holding one string field "abc" (5 bytes): length 5, literal tag.
    let block = vec![0x05, 0x10, 0x1A, 3, b'a', b'b', b'c'];
    let buf = zip_of(&[("Index/Document.iwa", block), ("Index/Broken.iwa", vec![0xFF])]);
    let text = extract_text_from_iwa_files(&buf, &["Index/Document.iwa".to_string(), "Index/Broken.iwa".to_string()]).unwrap();
    assert_eq!(text, "abc");
}

#[test]
fn metadata_from_plist_and_identifier() {
    let plist = "<dict>\n<key>title</key>\n\n<string>Report</string>\n<key>author</key>\n<string>Ann</string>\n<key>keywords</key>\n<string>a, b, a</string>\n</dict>\n";
    let buf = zip_of(&[
        ("Metadata/Properties.plist", plist.as_bytes().to_vec()),
        ("Metadata/DocumentIdentifier", b"  ID-1 ".to_vec()),
    ]);
    let m = try_extract_metadata_from_zip(&buf).unwrap();
    assert_eq!(m.title.as_deref(), Some("Report"));
    assert_eq!(m.authors, Some(vec!["Ann".to_string()]));
    assert_eq!(m.keywords, Some(vec!["a".to_string(), "b".to_string()]));
}

#[test]
fn identifier_becomes_title_when_none() {
    let buf = zip_of(&[("Metadata/DocumentIdentifier", b"  ID-1 ".to_vec())]);
    let m = try_extract_metadata_from_zip(&buf).unwrap();
    assert_eq!(m.title.as_deref(), Some("ID-1"));
}

#[test]
fn malformed_plist_is_refused() {
    let buf = zip_of(&[("Metadata/Properties.plist", b"</key><key>x\n".to_vec())]);
    assert!(try_extract_metadata_from_zip(&buf).is_none());
}

#[test]
fn pages_document() {
    let buf = zip_of(&[
        ("Index/Document.iwa", iwa_of(&["Annual Report", "Introduction", "This is the body text of the report.", "Annual Report"])),
        ("Index/AnnotationAuthorStorage.iwa", iwa_of(&["A margin note here.", "Introduction"])),
    ]);
    let doc = PagesExtractor::new().try_extract_bytes(&buf, "application/x-iwork-pages-sffpages").unwrap().unwrap();
    let kinds: Vec<ElementKind> = doc.elements.iter().map(|e| e.kind).collect();
    assert_eq!(
        kinds,
        vec![
            ElementKind::Title,
            ElementKind::Heading { level: 2 },
            ElementKind::Paragraph,
            ElementKind::Heading { level: 2 },
            ElementKind::Paragraph
        ]
    );
    assert_eq!(doc.elements[0].text, "Annual Report");
    assert_eq!(doc.elements[3].text, "Annotations");
    assert_eq!(doc.elements[4].text, "A margin note here.");
    assert_eq!(doc.mime_type, "application/x-iwork-pages-sffpages");
}

#[test]
fn numbers_document() {
    let buf = zip_of(&[
        ("Index/Tables/DataList.iwa", iwa_of(&["Revenue", "x", "Revenue", "2024"])),
        ("Index/Document.iwa", iwa_of(&["Budget sheet"])),
    ]);
    let doc = NumbersExtractor::new().try_extract_bytes(&buf, "application/x-iwork-numbers-sffnumbers").unwrap().unwrap();
    let kinds: Vec<ElementKind> = doc.elements.iter().map(|e| e.kind).collect();
    assert_eq!(
        kinds,
        vec![ElementKind::Heading { level: 1 }, ElementKind::Table, ElementKind::Heading { level: 1 }, ElementKind::Table]
    );
    assert_eq!(doc.elements[0].text, "Sheet Data");
    assert_eq!(doc.elements[1].cells, vec![vec!["Revenue".to_string()], vec!["2024".to_string()]]);
    assert_eq!(doc.elements[2].text, "Document Info");
}

#[test]
fn keynote_document() {
    let buf = zip_of(&[
        ("Index/Slide-2.iwa", iwa_of(&["Second", "Shared text"])),
        ("Index/Slide-1.iwa", iwa_of(&["First", "Shared text", "More"])),
        ("Index/MasterSlide-1.iwa", iwa_of(&["Master", "First"])),
    ]);
    let doc = KeynoteExtractor::new().try_extract_bytes(&buf, "application/x-iwork-keynote-sffkey").unwrap().unwrap();
    let kinds: Vec<ElementKind> = doc.elements.iter().map(|e| e.kind).collect();
    assert_eq!(
        kinds,
        vec![
            ElementKind::Slide { number: 1 },
            ElementKind::Paragraph,
            ElementKind::Paragraph,
            ElementKind::Slide { number: 2 },
            ElementKind::Heading { level: 2 },
            ElementKind::Paragraph
        ]
    );
    assert_eq!(doc.elements[0].text, "First");
    assert_eq!(doc.elements[3].text, "Second");
    assert_eq!(doc.elements[4].text, "Additional Content");
    assert_eq!(doc.elements[5].text, "Master");
}
