use kreuzberg::document::{ElementKind, InternalDocument, UriKind};
use kreuzberg::odt::{
    build_internal_list, build_style_map, collect_odt_annotations, extract_frame_description, extract_mathml_text, extract_node_text, mathml_tree_text,
    extract_row_cells, extract_table_cells,
};
use kreuzberg::types::AnnotationKind;
use kreuzberg::xml::{parse_xml, XmlNode};

fn root_of(xml: &str) -> XmlNode {
    parse_xml(xml).unwrap()
}

const NS: &str = r#"xmlns:text="urn:oasis:names:tc:opendocument:xmlns:text:1.0" xmlns:table="urn:oasis:names:tc:opendocument:xmlns:table:1.0" xmlns:style="urn:oasis:names:tc:opendocument:xmlns:style:1.0" xmlns:fo="urn:oasis:names:tc:opendocument:xmlns:xsl-fo-compatible:1.0" xmlns:xlink="http://www.w3.org/1999/xlink" xmlns:office="urn:oasis:names:tc:opendocument:xmlns:office:1.0" xmlns:draw="urn:oasis:names:tc:opendocument:xmlns:drawing:1.0" xmlns:svg="urn:oasis:names:tc:opendocument:xmlns:svg-compatible:1.0""#;

#[test]
fn test_extract_node_text_simple() {
    let xml = r#"<p xmlns:text="urn:oasis:names:tc:opendocument:xmlns:text:1.0">Hello world</p>"#;
    let node = root_of(xml);

    let result = extract_node_text(&node);
    assert!(result.is_some());
    assert!(!result.unwrap().is_empty());
}

#[test]
fn odt_node_text_spans_tabs_breaks() {
    let xml = format!(r#"<text:p {NS}>A<text:span>b</text:span><text:tab/><text:line-break/>c</text:p>"#);
    let node = root_of(&xml);
    assert_eq!(extract_node_text(&node).as_deref(), Some("Ab\t\nc"));
    let empty = root_of(&format!(r#"<text:p {NS}/>"#));
    assert_eq!(extract_node_text(&empty), None);
}

#[test]
fn odt_table_cells_with_header_rows() {
    let xml = format!(
        r#"<table:table {NS}><table:table-header-rows><table:table-row><table:table-cell><text:p> H1 </text:p></table:table-cell><table:table-cell><text:p>H2</text:p></table:table-cell></table:table-row></table:table-header-rows><table:table-row><table:table-cell><text:p>a</text:p></table:table-cell><table:table-cell/></table:table-row><table:table-row/></table:table>"#
    );
    let node = root_of(&xml);
    assert_eq!(
        extract_table_cells(&node),
        vec![vec!["H1".to_string(), "H2".to_string()], vec!["a".to_string(), "".to_string()]]
    );
    let row = root_of(&format!(r#"<table:table-row {NS}/>"#));
    assert_eq!(extract_row_cells(&row), None);
}

#[test]
fn odt_frame_description_prefers_title() {
    let xml = format!(r#"<draw:frame {NS}><svg:desc>Desc</svg:desc><svg:title>  </svg:title><svg:title>Title</svg:title></draw:frame>"#);
    assert_eq!(extract_frame_description(&root_of(&xml)).as_deref(), Some("Title"));
    let xml2 = format!(r#"<draw:frame {NS}><text:p> Caption </text:p><svg:desc>Desc</svg:desc></draw:frame>"#);
    assert_eq!(extract_frame_description(&root_of(&xml2)).as_deref(), Some("Desc"));
    let xml3 = format!(r#"<draw:frame {NS}><text:p> Caption </text:p></draw:frame>"#);
    assert_eq!(extract_frame_description(&root_of(&xml3)).as_deref(), Some("Caption"));
    let xml4 = format!(r#"<draw:frame {NS}/>"#);
    assert_eq!(extract_frame_description(&root_of(&xml4)), None);
}

#[test]
fn odt_mathml_text() {
    let xml = r#"<math xmlns="http://www.w3.org/1998/Math/MathML"><mrow><mi>x</mi><mo>=</mo><mfrac><mi>a</mi><mn>2</mn></mfrac><mo>+</mo><msup><mi>y</mi><mn>3</mn></msup><msqrt><mi>z</mi></msqrt><msub><mi>k</mi><mn>0</mn></msub></mrow></math>"#;
    assert_eq!(extract_mathml_text(xml), "x = (a)/(2) + y^3 sqrt(z) k_0");
    assert_eq!(mathml_tree_text(&root_of(xml)), "x = (a)/(2) + y^3 sqrt(z) k_0");
}

#[test]
fn odt_styles_and_annotations() {
    let styles = format!(
        r##"<office:document-content {NS}><office:automatic-styles><style:style style:name="B"><style:text-properties fo:font-weight="bold" fo:color="#000000"/></style:style><style:style style:name="I"><style:text-properties fo:font-style="italic" style:text-underline-style="solid" fo:color="#ff0000" fo:font-size="12pt"/></style:style></office:automatic-styles></office:document-content>"##
    );
    let map = build_style_map(&root_of(&styles));
    let para = format!(
        r##"<text:p {NS}>Hi <text:span text:style-name="B">bold</text:span><text:span text:style-name="I">it</text:span> <text:a xlink:href="#sec">ref</text:a><text:a xlink:href="mailto:a@b.c">mail</text:a><text:note>skip</text:note></text:p>"##
    );
    let (text, anns, uris) = collect_odt_annotations(&root_of(&para), &map);
    assert_eq!(text, "Hi boldit refmail");
    assert_eq!(anns.len(), 7);
    assert_eq!((anns[0].start, anns[0].end, anns[0].kind.clone()), (3, 7, AnnotationKind::Bold));
    assert_eq!(anns[1].kind, AnnotationKind::Italic);
    assert_eq!(anns[2].kind, AnnotationKind::Underline);
    assert_eq!(anns[3].kind, AnnotationKind::Color { value: "#ff0000".to_string() });
    assert_eq!(anns[4].kind, AnnotationKind::FontSize { value: "12pt".to_string() });
    assert_eq!((anns[1].start, anns[1].end), (7, 9));
    assert_eq!(anns[5].kind, AnnotationKind::Link { url: "#sec".to_string(), title: None });
    assert_eq!(uris.len(), 2);
    assert_eq!(uris[0].kind, UriKind::Anchor);
    assert_eq!(uris[0].label.as_deref(), Some("ref"));
    assert_eq!(uris[1].kind, UriKind::Email);
}

#[test]
fn odt_nested_list() {
    let xml = format!(
        r#"<text:list {NS}><text:list-item><text:p>One</text:p><text:list><text:list-item><text:h> Two </text:h></text:list-item></text:list></text:list-item><text:list-item><text:p>  </text:p></text:list-item></text:list>"#
    );
    let mut doc = InternalDocument::new("odt");
    build_internal_list(&root_of(&xml), &mut doc);
    let kinds: Vec<ElementKind> = doc.elements.iter().map(|e| e.kind).collect();
    assert_eq!(
        kinds,
        vec![
            ElementKind::ListStart { ordered: false },
            ElementKind::ListItem { ordered: false },
            ElementKind::ListStart { ordered: false },
            ElementKind::ListItem { ordered: false },
            ElementKind::ListEnd,
            ElementKind::ListEnd,
        ]
    );
    assert_eq!(doc.elements[1].text, "One");
    assert_eq!(doc.elements[3].text, "Two");
}

#[test]
fn mathml_text_of_malformed_xml_is_empty() {
    assert_eq!(extract_mathml_text("<math><mi>x</mi>"), "");
    assert_eq!(extract_mathml_text("<math><mi> y </mi><mn>1</mn></math>"), "y 1");
}

#[test]
fn parsed_xml_keeps_namespaces_attributes_and_text() {
    let root = parse_xml(r#"<a xmlns:t="urn:t" t:k="v"><b>hi</b><!--c--></a>"#).unwrap();
    match root {
        XmlNode::Element { name, attributes, children, .. } => {
            assert_eq!(name, "a");
            assert_eq!(attributes.len(), 1);
            assert_eq!(attributes[0].namespace.as_deref(), Some("urn:t"));
            assert_eq!(attributes[0].name, "k");
            assert_eq!(attributes[0].value, "v");
            assert_eq!(children.len(), 2);
            assert!(matches!(&children[1], XmlNode::Comment(c) if c == "c"));
        }
        _ => panic!("expected an element"),
    }
    assert!(parse_xml("<a>").is_none());
}
