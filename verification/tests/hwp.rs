use kreuzberg::document::ElementKind;
use kreuzberg::hwp::{apply_char_shapes, build_hwp_internal_document, CharShape, HwpDocument, HwpImage, ParaText, Paragraph, Section};
use kreuzberg::image::build_image_internal_document;
use kreuzberg::types::{AnnotationKind, ExtractedImage};

#[test]
fn test_apply_char_shapes() {
    let text = "Hello world";
    let runs = vec![(0, 0), (5, 1)];
    let shape1 = CharShape {
        bold: true,
        ..Default::default()
    };
    let shape2 = CharShape {
        italic: true,
        ..Default::default()
    };
    let char_shapes = vec![shape1, shape2];

    let annotations = apply_char_shapes(text, &runs, &char_shapes);
    assert_eq!(annotations.len(), 2);
    assert_eq!(annotations[0].kind, AnnotationKind::Bold);
    assert_eq!(annotations[0].start, 0);
    assert_eq!(annotations[0].end, 5);

    assert_eq!(annotations[1].kind, AnnotationKind::Italic);
    assert_eq!(annotations[1].start, 5);
    assert_eq!(annotations[1].end, 11);
}

#[test]
fn char_shapes_runs_sorted_and_multibyte() {
    let text = "가나다";
    let runs = vec![(2, 1), (0, 0)];
    let shapes = vec![CharShape { underline: true, ..Default::default() }, CharShape { bold: true, italic: true, ..Default::default() }];
    let anns = apply_char_shapes(text, &runs, &shapes);
    assert_eq!(anns.len(), 3);
    assert_eq!((anns[0].start, anns[0].end, anns[0].kind.clone()), (0, 6, AnnotationKind::Underline));
    assert_eq!((anns[1].start, anns[1].end, anns[1].kind.clone()), (6, 9, AnnotationKind::Bold));
    assert_eq!((anns[2].start, anns[2].end, anns[2].kind.clone()), (6, 9, AnnotationKind::Italic));
}

#[test]
fn char_shapes_missing_shape_and_empty_runs() {
    let shapes = vec![CharShape { bold: true, ..Default::default() }];
    assert!(apply_char_shapes("abc", &[(0, 5)], &shapes).is_empty());
    assert!(apply_char_shapes("abc", &[], &shapes).is_empty());
    assert!(apply_char_shapes("abc", &[(0, 0)], &[]).is_empty());
    assert!(apply_char_shapes("abc", &[(3, 0)], &shapes).is_empty());
}

#[test]
fn test_build_hwp_internal_document() {
    let shape1 = CharShape {
        bold: true,
        ..Default::default()
    };

    let para = Paragraph {
        outline_level: 1, // Heading 1
        text: Some(ParaText {
            content: "My Heading".to_string(),
        }),
        char_shape_runs: vec![(0, 0)],
    };

    let section = Section { paragraphs: vec![para] };

    let image = HwpImage {
        name: "image1.png".to_string(),
        // Fake PNG magic bytes
        data: vec![0x89, 0x50, 0x4E, 0x47, 0x0D, 0x0A, 0x1A, 0x0A],
    };

    let hwp_doc = HwpDocument {
        char_shapes: vec![shape1],
        sections: vec![section],
        images: vec![image],
    };

    let internal_doc = build_hwp_internal_document(&hwp_doc);

    assert_eq!(internal_doc.elements.len(), 2); // 1 heading + 1 image

    let first_elem = &internal_doc.elements[0];
    match first_elem.kind {
        ElementKind::Heading { level } => {
            assert_eq!(level, 1);
            assert_eq!(first_elem.text, "My Heading");
            assert_eq!(first_elem.annotations.len(), 1);
            assert_eq!(first_elem.annotations[0].kind, AnnotationKind::Bold);
        }
        _ => panic!("Expected Heading"),
    }

    let second_elem = &internal_doc.elements[1];
    match second_elem.kind {
        ElementKind::Image { image_index } => {
            let i = &internal_doc.images[image_index as usize];
            assert_eq!(i.source_path.as_deref(), Some("image1.png"));
            // infer crate should detect PNG from magic bytes
            assert_eq!(i.format, "image/png");
        }
        _ => panic!("Expected Image"),
    }
}

#[test]
fn hwp_document_body_paragraphs_and_unknown_images() {
    let doc = build_hwp_internal_document(&HwpDocument {
        char_shapes: vec![],
        sections: vec![
            Section {
                paragraphs: vec![
                    Paragraph { outline_level: 0, text: Some(ParaText { content: "body".to_string() }), char_shape_runs: vec![] },
                    Paragraph { outline_level: 2, text: Some(ParaText { content: String::new() }), char_shape_runs: vec![] },
                    Paragraph { outline_level: 2, text: None, char_shape_runs: vec![] },
                ],
            },
            Section {
                paragraphs: vec![Paragraph {
                    outline_level: 3,
                    text: Some(ParaText { content: "h3".to_string() }),
                    char_shape_runs: vec![(0, 7)],
                }],
            },
        ],
        images: vec![
            HwpImage { name: "a.bin".to_string(), data: vec![1, 2, 3] },
            HwpImage { name: "b.bin".to_string(), data: vec![] },
        ],
    });
    let kinds: Vec<ElementKind> = doc.elements.iter().map(|e| e.kind).collect();
    assert_eq!(
        kinds,
        vec![
            ElementKind::Paragraph,
            ElementKind::Heading { level: 3 },
            ElementKind::Image { image_index: 0 },
            ElementKind::Image { image_index: 1 },
        ]
    );
    assert!(doc.elements[1].annotations.is_empty());
    assert_eq!(doc.images.len(), 2);
    assert_eq!(doc.images[0].format, "application/octet-stream");
    assert_eq!(doc.images[1].image_index, 1);
    assert_eq!(doc.images[1].source_path.as_deref(), Some("b.bin"));
    assert_eq!(doc.source_format, "hwp");
}

#[test]
fn image_document_with_and_without_data() {
    let img = ExtractedImage {
        data: vec![1, 2],
        format: "png".to_string(),
        image_index: 0,
        page_number: None,
        description: None,
        source_path: None,
    };
    let doc = build_image_internal_document(Some("  seen text \n"), Some(img.clone()));
    let kinds: Vec<ElementKind> = doc.elements.iter().map(|e| e.kind).collect();
    assert_eq!(kinds, vec![ElementKind::Paragraph, ElementKind::Image { image_index: 0 }]);
    assert_eq!(doc.elements[0].text, "seen text");
    assert_eq!(doc.images, vec![img]);
    let bare = build_image_internal_document(Some("   "), None);
    let kinds: Vec<ElementKind> = bare.elements.iter().map(|e| e.kind).collect();
    assert_eq!(kinds, vec![ElementKind::Image { image_index: 0 }]);
    assert!(bare.images.is_empty());
    assert_eq!(bare.source_format, "image");
}
