use kreuzberg::fictionbook::{resolve_entity, resolve_general_ref};
use kreuzberg::jupyter::JupyterExtractor;

#[test]
fn entities_resolve() {
    assert_eq!(resolve_entity("amp"), Some("&"));
    assert_eq!(resolve_entity("nbsp"), Some("\u{00A0}"));
    assert_eq!(resolve_entity("#65"), None);
    assert_eq!(resolve_entity("unknown"), None);
}

#[test]
fn general_refs_resolve() {
    assert_eq!(resolve_general_ref(b"lt"), "<");
    assert_eq!(resolve_general_ref(b"#65"), "A");
    assert_eq!(resolve_general_ref(b"#x263A"), "\u{263A}");
    assert_eq!(resolve_general_ref(b"#xD800"), "");
    assert_eq!(resolve_general_ref(b"#99999999999"), "");
    assert_eq!(resolve_general_ref(b"#"), "");
    assert_eq!(resolve_general_ref(b"bogus"), "");
}

#[test]
fn heading_lines() {
    assert_eq!(JupyterExtractor::parse_heading_line("## Title  "), Some((2, "Title".to_string())));
    assert_eq!(JupyterExtractor::parse_heading_line("  #"), Some((1, "".to_string())));
    assert_eq!(JupyterExtractor::parse_heading_line("#NoSpace"), None);
    assert_eq!(JupyterExtractor::parse_heading_line("####### seven"), None);
    assert_eq!(JupyterExtractor::parse_heading_line("plain"), None);
}

#[test]
fn closing_delimiters() {
    let s: Vec<char> = "a **b** c".chars().collect();
    assert_eq!(JupyterExtractor::find_closing(&s, 4, '*', '*'), Some(5));
    assert_eq!(JupyterExtractor::find_closing(&s, 7, '*', '*'), None);
    let t: Vec<char> = "x *y** *z*".chars().collect();
    assert_eq!(JupyterExtractor::find_closing_single_star(&t, 3), Some(5));
}

#[test]
fn general_references_resolve() {
    assert_eq!(resolve_general_ref(b"amp"), "&");
    assert_eq!(resolve_general_ref(b"nbsp"), "\u{A0}");
    assert_eq!(resolve_general_ref(b"#65"), "A");
    assert_eq!(resolve_general_ref(b"#x41"), "A");
    assert_eq!(resolve_general_ref(b"#xD800"), "");
    assert_eq!(resolve_general_ref(b"bogus"), "");
}
