//! ODT (OpenDocument Text): the extractor's description.

use vstd::prelude::*;
use crate::text;
use crate::text::{chars_string, join_spaces, join_with_spaces, push_all, push_str, str_chars, trim_vec};
use crate::types::{AnnView, AnnotationKind, KindView, TextAnnotation, anns_view, opt_str, opt_strs, strs, rows_view};
use crate::document::{add_elem, byte_offset, byte_offset_exec, link_kind, plain, DocView, ElementKind, InternalDocument, UriKind, UriRef, UriView};
use crate::xml::{XmlNode, parse_xml, xml_parsed, attr_or, node_attr, node_children, node_name, node_text};
use crate::plugins::{ExtractorInfo, InfoView, KreuzbergError, VERSION, make_info, str_views};

verus! {

/// OpenDocument Text extractor.
pub struct OdtExtractor;
impl Default for OdtExtractor {
    fn default() -> (r: Self)
        ensures
            r == OdtExtractor,
    {
        OdtExtractor
    }
}
impl OdtExtractor {
    /// A new extractor.
    pub fn new() -> (r: Self)
        ensures
            r == OdtExtractor,
    {
        OdtExtractor
    }

    /// The extractor's name.
    pub fn name(&self) -> (r: &'static str)
        ensures
            r@ == "odt-extractor"@,
    {
        "odt-extractor"
    }

    /// The library version.
    pub fn version(&self) -> (r: String)
        ensures
            r@ == VERSION@,
    {
        VERSION.to_owned()
    }

    /// Prepares the extractor; nothing can fail.
    pub fn initialize(&self) -> (r: Result<(), KreuzbergError>)
        ensures
            r is Ok,
    {
        Ok(())
    }

    /// Releases the extractor; nothing can fail.
    pub fn shutdown(&self) -> (r: Result<(), KreuzbergError>)
        ensures
            r is Ok,
    {
        Ok(())
    }

    /// What the extractor does.
    pub fn description(&self) -> (r: &'static str)
        ensures
            r@ == "Native Rust ODT (OpenDocument Text) extractor with metadata and table support"@,
    {
        "Native Rust ODT (OpenDocument Text) extractor with metadata and table support"
    }

    /// Who wrote the extractor.
    pub fn author(&self) -> (r: &'static str)
        ensures
            r@ == "Kreuzberg Team"@,
    {
        "Kreuzberg Team"
    }

    /// The MIME types the extractor handles.
    pub fn supported_mime_types(&self) -> (r: Vec<&'static str>)
        ensures
            str_views(r@) == seq!["application/vnd.oasis.opendocument.text"@],
    {
        let mut v: Vec<&'static str> = Vec::new();
        v.push("application/vnd.oasis.opendocument.text");
        assert(str_views(v@) =~= seq!["application/vnd.oasis.opendocument.text"@]);
        v
    }

    /// The extractor's priority among those handling the same MIME type.
    pub fn priority(&self) -> (r: i32)
        ensures
            r == 60,
    {
        60
    }

    /// The description the registry keeps of this extractor.
    pub open spec fn descriptor() -> InfoView {
        InfoView { name: "odt-extractor"@, priority: 60, mime_types: seq!["application/vnd.oasis.opendocument.text"@] }
    }

    /// The description the registry keeps.
    pub fn info(&self) -> (r: ExtractorInfo)
        ensures
            r@ == Self::descriptor(),
    {
        let m = self.supported_mime_types();
        make_info(self.name(), self.priority(), m.as_slice())
    }
}


// ---------------------------------------------------------------------------
// Text of nodes and tables
// ---------------------------------------------------------------------------

/// What a child node contributes to its parent's text: a tab, a line break, or
/// its own text.
pub open spec fn child_part(c: XmlNode) -> Option<Seq<char>> {
    if node_name(c) == "tab"@ {
        Some("\t"@)
    } else if node_name(c) == "line-break"@ {
        Some("\n"@)
    } else {
        node_text(c)
    }
}

/// The parts the children contribute, in order.
pub open spec fn child_parts(cs: Seq<XmlNode>) -> Seq<Seq<char>>
    decreases cs.len(),
{
    if cs.len() == 0 {
        seq![]
    } else {
        child_parts(cs.drop_last()) + match child_part(cs.last()) {
            Some(p) => seq![p],
            None => seq![],
        }
    }
}

/// The parts one after the other.
pub open spec fn concat(ps: Seq<Seq<char>>) -> Seq<char>
    decreases ps.len(),
{
    if ps.len() == 0 {
        seq![]
    } else {
        concat(ps.drop_last()) + ps.last()
    }
}

/// A node's text: what its children contribute, or its own text when they
/// contribute nothing.
pub open spec fn spec_node_text(n: XmlNode) -> Option<Seq<char>> {
    let ps = child_parts(node_children(n));
    if ps.len() == 0 {
        node_text(n)
    } else {
        Some(concat(ps))
    }
}

/// The trimmed texts of the `table-cell` children.
pub open spec fn row_cells(cs: Seq<XmlNode>) -> Seq<Seq<char>>
    decreases cs.len(),
{
    if cs.len() == 0 {
        seq![]
    } else {
        row_cells(cs.drop_last()) + if node_name(cs.last()) == "table-cell"@ {
            seq![
                text::trim(
                    match spec_node_text(cs.last()) {
                        Some(t) => t,
                        None => seq![],
                    },
                ),
            ]
        } else {
            seq![]
        }
    }
}

/// A row's cells; `None` when it has none.
pub open spec fn spec_row_cells(row: XmlNode) -> Option<Seq<Seq<char>>> {
    let c = row_cells(node_children(row));
    if c.len() == 0 {
        None
    } else {
        Some(c)
    }
}

/// The rows of the `table-row` nodes among `cs` that have cells.
pub open spec fn direct_rows(cs: Seq<XmlNode>) -> Seq<Seq<Seq<char>>>
    decreases cs.len(),
{
    if cs.len() == 0 {
        seq![]
    } else {
        direct_rows(cs.drop_last()) + if node_name(cs.last()) == "table-row"@ {
            match spec_row_cells(cs.last()) {
                Some(r) => seq![r],
                None => seq![],
            }
        } else {
            seq![]
        }
    }
}

/// A table's rows: its `table-row` children and the rows inside its
/// `table-header-rows` children, in order.
pub open spec fn table_rows(cs: Seq<XmlNode>) -> Seq<Seq<Seq<char>>>
    decreases cs.len(),
{
    if cs.len() == 0 {
        seq![]
    } else {
        let c = cs.last();
        table_rows(cs.drop_last()) + if node_name(c) == "table-row"@ {
            match spec_row_cells(c) {
                Some(r) => seq![r],
                None => seq![],
            }
        } else if node_name(c) == "table-header-rows"@ {
            direct_rows(node_children(c))
        } else {
            seq![]
        }
    }
}

/// What a child contributes.
fn child_part_exec(c: &XmlNode) -> (r: Option<Vec<char>>)
    ensures
        match r {
            Some(p) => child_part(*c) == Some(p@),
            None => child_part(*c) is None,
        },
{
    if c.is_named("tab") {
        Some(str_chars("\t"))
    } else if c.is_named("line-break") {
        Some(str_chars("\n"))
    } else {
        match c.text() {
            Some(t) => Some(str_chars(t)),
            None => None,
        }
    }
}

/// A node's text, spans, tabs and line breaks included.
pub fn extract_node_text(node: &XmlNode) -> (r: Option<String>)
    ensures
        opt_str(r) == spec_node_text(*node),
{
    let cs = node.children();
    let mut out: Vec<char> = Vec::new();
    let mut count: usize = 0;
    let mut k: usize = 0;
    assert(cs@.take(0) =~= Seq::<XmlNode>::empty());
    while k < cs.len()
        invariant
            k <= cs@.len(),
            cs@ == node_children(*node),
            out@ == concat(child_parts(cs@.take(k as int))),
            count == child_parts(cs@.take(k as int)).len(),
            count <= k,
        decreases cs@.len() - k,
    {
        assert(cs@.take(k + 1).drop_last() =~= cs@.take(k as int));
        let ghost ps = child_parts(cs@.take(k as int));
        match child_part_exec(&cs[k]) {
            Some(p) => {
                push_all(&mut out, p.as_slice());
                assert(ps.push(p@).drop_last() =~= ps);
                assert(child_parts(cs@.take(k + 1)) =~= ps.push(p@));
                count = count + 1;
            },
            None => {
                assert(child_parts(cs@.take(k + 1)) =~= ps);
            },
        }
        k = k + 1;
    }
    assert(cs@.take(cs@.len() as int) =~= cs@);
    if count == 0 {
        match node.text() {
            Some(t) => Some(t.to_owned()),
            None => None,
        }
    } else {
        Some(chars_string(out.as_slice()))
    }
}

/// A row's trimmed cell texts; `None` when it has no cells.
pub fn extract_row_cells(row_node: &XmlNode) -> (r: Option<Vec<String>>)
    ensures
        opt_strs(r) == spec_row_cells(*row_node),
{
    let cs = row_node.children();
    let mut cells: Vec<String> = Vec::new();
    let mut k: usize = 0;
    assert(cs@.take(0) =~= Seq::<XmlNode>::empty());
    while k < cs.len()
        invariant
            k <= cs@.len(),
            cs@ == node_children(*row_node),
            strs(cells@) == row_cells(cs@.take(k as int)),
        decreases cs@.len() - k,
    {
        assert(cs@.take(k + 1).drop_last() =~= cs@.take(k as int));
        let ghost before = strs(cells@);
        if cs[k].is_named("table-cell") {
            let t = match extract_node_text(&cs[k]) {
                Some(x) => str_chars(x.as_str()),
                None => Vec::new(),
            };
            let tr = trim_vec(t.as_slice());
            cells.push(chars_string(tr.as_slice()));
            assert(strs(cells@) =~= before + seq![tr@]);
        } else {
            assert(strs(cells@) =~= before + Seq::<Seq<char>>::empty());
        }
        k = k + 1;
    }
    assert(cs@.take(cs@.len() as int) =~= cs@);
    if cells.len() == 0 {
        None
    } else {
        Some(cells)
    }
}

/// Appends the rows of the `table-row` nodes among `cs` that have cells.
fn push_direct_rows(rows: &mut Vec<Vec<String>>, cs: &[XmlNode])
    ensures
        rows_view(final(rows)@) == rows_view(old(rows)@) + direct_rows(cs@),
{
    let ghost r0 = rows_view(rows@);
    let mut k: usize = 0;
    assert(cs@.take(0) =~= Seq::<XmlNode>::empty());
    while k < cs.len()
        invariant
            k <= cs@.len(),
            rows_view(rows@) == r0 + direct_rows(cs@.take(k as int)),
        decreases cs@.len() - k,
    {
        assert(cs@.take(k + 1).drop_last() =~= cs@.take(k as int));
        let ghost before = rows_view(rows@);
        if cs[k].is_named("table-row") {
            match extract_row_cells(&cs[k]) {
                Some(row) => {
                    let ghost rv = strs(row@);
                    rows.push(row);
                    assert(rows_view(rows@) =~= before + seq![rv]);
                },
                None => {
                    assert(rows_view(rows@) =~= before + Seq::<Seq<Seq<char>>>::empty());
                },
            }
        } else {
            assert(rows_view(rows@) =~= before + Seq::<Seq<Seq<char>>>::empty());
        }
        k = k + 1;
    }
    assert(cs@.take(cs@.len() as int) =~= cs@);
}

/// A table's rows, header rows included.
pub fn extract_table_cells(table_node: &XmlNode) -> (r: Vec<Vec<String>>)
    ensures
        rows_view(r@) == table_rows(node_children(*table_node)),
{
    let cs = table_node.children();
    let mut rows: Vec<Vec<String>> = Vec::new();
    let mut k: usize = 0;
    assert(cs@.take(0) =~= Seq::<XmlNode>::empty());
    assert(rows_view(rows@) =~= Seq::<Seq<Seq<char>>>::empty());
    while k < cs.len()
        invariant
            k <= cs@.len(),
            cs@ == node_children(*table_node),
            rows_view(rows@) == table_rows(cs@.take(k as int)),
        decreases cs@.len() - k,
    {
        assert(cs@.take(k + 1).drop_last() =~= cs@.take(k as int));
        let ghost before = rows_view(rows@);
        let c = &cs[k];
        if c.is_named("table-row") {
            match extract_row_cells(c) {
                Some(row) => {
                    let ghost rv = strs(row@);
                    rows.push(row);
                    assert(rows_view(rows@) =~= before + seq![rv]);
                },
                None => {
                    assert(rows_view(rows@) =~= before + Seq::<Seq<Seq<char>>>::empty());
                },
            }
        } else if c.is_named("table-header-rows") {
            push_direct_rows(&mut rows, c.children());
        } else {
            assert(rows_view(rows@) =~= before + Seq::<Seq<Seq<char>>>::empty());
        }
        k = k + 1;
    }
    assert(cs@.take(cs@.len() as int) =~= cs@);
    rows
}


// ---------------------------------------------------------------------------
// Frame descriptions
// ---------------------------------------------------------------------------

/// The trimmed text of the first child named `name` whose trimmed text is not
/// empty.
pub open spec fn first_text_named(cs: Seq<XmlNode>, name: Seq<char>) -> Option<Seq<char>>
    decreases cs.len(),
{
    if cs.len() == 0 {
        None
    } else if node_name(cs[0]) == name && node_text(cs[0]) is Some && text::trim(node_text(cs[0])->0).len() > 0 {
        Some(text::trim(node_text(cs[0])->0))
    } else {
        first_text_named(cs.drop_first(), name)
    }
}

/// The trimmed text of the first `p` child whose trimmed text is not empty.
pub open spec fn first_paragraph_text(cs: Seq<XmlNode>) -> Option<Seq<char>>
    decreases cs.len(),
{
    if cs.len() == 0 {
        None
    } else if node_name(cs[0]) == "p"@ && spec_node_text(cs[0]) is Some && text::trim(spec_node_text(cs[0])->0).len()
        > 0 {
        Some(text::trim(spec_node_text(cs[0])->0))
    } else {
        first_paragraph_text(cs.drop_first())
    }
}

/// A frame's description: its title, else its description, else its first
/// paragraph with text.
pub open spec fn spec_frame_description(frame: XmlNode) -> Option<Seq<char>> {
    let cs = node_children(frame);
    match first_text_named(cs, "title"@) {
        Some(t) => Some(t),
        None => match first_text_named(cs, "desc"@) {
            Some(t) => Some(t),
            None => first_paragraph_text(cs),
        },
    }
}

/// The trimmed text of the first child named `name` with some.
fn first_text_named_exec(cs: &[XmlNode], name: &str) -> (r: Option<String>)
    ensures
        opt_str(r) == first_text_named(cs@, name@),
{
    let mut k: usize = 0;
    assert(cs@.skip(0) =~= cs@);
    while k < cs.len()
        invariant
            k <= cs@.len(),
            first_text_named(cs@, name@) == first_text_named(cs@.skip(k as int), name@),
        decreases cs@.len() - k,
    {
        assert(cs@.skip(k as int)[0] == cs@[k as int]);
        assert(cs@.skip(k as int).drop_first() =~= cs@.skip(k + 1int));
        if cs[k].is_named(name) {
            match cs[k].text() {
                Some(t) => {
                    let tc = str_chars(t);
                    let tr = trim_vec(tc.as_slice());
                    if tr.len() > 0 {
                        return Some(chars_string(tr.as_slice()));
                    }
                },
                None => {},
            }
        }
        k = k + 1;
    }
    None
}

/// The trimmed text of the first `p` child with some.
fn first_paragraph_text_exec(cs: &[XmlNode]) -> (r: Option<String>)
    ensures
        opt_str(r) == first_paragraph_text(cs@),
{
    let mut k: usize = 0;
    assert(cs@.skip(0) =~= cs@);
    while k < cs.len()
        invariant
            k <= cs@.len(),
            first_paragraph_text(cs@) == first_paragraph_text(cs@.skip(k as int)),
        decreases cs@.len() - k,
    {
        assert(cs@.skip(k as int)[0] == cs@[k as int]);
        assert(cs@.skip(k as int).drop_first() =~= cs@.skip(k + 1int));
        if cs[k].is_named("p") {
            match extract_node_text(&cs[k]) {
                Some(t) => {
                    let tc = str_chars(t.as_str());
                    let tr = trim_vec(tc.as_slice());
                    if tr.len() > 0 {
                        return Some(chars_string(tr.as_slice()));
                    }
                },
                None => {},
            }
        }
        k = k + 1;
    }
    None
}

/// A frame's description from its `svg:title`, `svg:desc` or `text:p` children.
pub fn extract_frame_description(frame: &XmlNode) -> (r: Option<String>)
    ensures
        opt_str(r) == spec_frame_description(*frame),
{
    let cs = frame.children();
    match first_text_named_exec(cs, "title") {
        Some(t) => Some(t),
        None => match first_text_named_exec(cs, "desc") {
            Some(t) => Some(t),
            None => first_paragraph_text_exec(cs),
        },
    }
}

// ---------------------------------------------------------------------------
// MathML
// ---------------------------------------------------------------------------

/// The MathML token elements, whose text is shown.
pub open spec fn is_token_tag(t: Seq<char>) -> bool {
    t == "mi"@ || t == "mn"@ || t == "mo"@ || t == "ms"@ || t == "mtext"@
}

/// The positions, from `k` on, of the element children.
pub open spec fn element_positions(cs: Seq<XmlNode>, k: nat) -> Seq<nat>
    decreases cs.len() - k,
{
    if k >= cs.len() {
        seq![]
    } else {
        (if cs[k as int] is Element {
            seq![k]
        } else {
            seq![]
        }) + element_positions(cs, k + 1)
    }
}

/// The trimmed text of a token element, when not empty.
pub open spec fn token_of(n: XmlNode) -> Seq<Seq<char>> {
    match node_text(n) {
        Some(t) => if text::trim(t).len() > 0 {
            seq![text::trim(t)]
        } else {
            seq![]
        },
        None => seq![],
    }
}

/// The tokens of a MathML node: token elements' text, fractions as
/// `(num)/(den)`, powers as `base^exp`, subscripts as `base_sub`, roots as
/// `sqrt(..)`, and everything else through its children.
pub open spec fn mathml_tokens(n: XmlNode) -> Seq<Seq<char>>
    decreases n, 1nat,
{
    match n {
        XmlNode::Element { children, .. } => {
            let tag = node_name(n);
            let cs = children@;
            if is_token_tag(tag) {
                token_of(n)
            } else if tag == "mfrac"@ || tag == "msup"@ || tag == "msub"@ {
                let ps = element_positions(cs, 0);
                if ps.len() == 2 && ps[0] < cs.len() && ps[1] < cs.len() {
                    let a = mathml_tokens(cs[ps[0] as int]);
                    let b = mathml_tokens(cs[ps[1] as int]);
                    if tag == "mfrac"@ {
                        if a.len() > 0 || b.len() > 0 {
                            seq!["("@ + join_spaces(a) + ")/("@ + join_spaces(b) + ")"@]
                        } else {
                            children_tokens(cs)
                        }
                    } else if tag == "msup"@ {
                        seq![join_spaces(a) + "^"@ + join_spaces(b)]
                    } else {
                        seq![join_spaces(a) + "_"@ + join_spaces(b)]
                    }
                } else {
                    children_tokens(cs)
                }
            } else if tag == "msqrt"@ {
                seq!["sqrt("@ + join_spaces(children_tokens(cs)) + ")"@]
            } else {
                children_tokens(cs)
            }
        },
        _ => seq![],
    }
}

/// The tokens of the nodes of `cs`, in order.
pub open spec fn children_tokens(cs: Seq<XmlNode>) -> Seq<Seq<char>>
    decreases cs, 0nat,
{
    if cs.len() == 0 {
        seq![]
    } else {
        children_tokens(cs.drop_last()) + mathml_tokens(cs.last())
    }
}


/// The positions of the element children.
fn element_positions_exec(cs: &Vec<XmlNode>) -> (r: Vec<usize>)
    ensures
        r@.map_values(|x: usize| x as nat) == element_positions(cs@, 0),
        forall|i: int| 0 <= i < r@.len() ==> r@[i] < cs@.len(),
{
    let mut pos: Vec<usize> = Vec::new();
    let mut k: usize = 0;
    assert(pos@.map_values(|x: usize| x as nat) + element_positions(cs@, 0) =~= element_positions(cs@, 0));
    while k < cs.len()
        invariant
            k <= cs@.len(),
            element_positions(cs@, 0) == pos@.map_values(|x: usize| x as nat) + element_positions(cs@, k as nat),
            forall|i: int| 0 <= i < pos@.len() ==> pos@[i] < cs@.len(),
        decreases cs@.len() - k,
    {
        let ghost before = pos@.map_values(|x: usize| x as nat);
        let is_elem = match &cs[k] {
            XmlNode::Element { .. } => true,
            _ => false,
        };
        if is_elem {
            pos.push(k);
            assert(pos@.map_values(|x: usize| x as nat) =~= before + seq![k as nat]);
            assert(before + element_positions(cs@, k as nat) =~= pos@.map_values(|x: usize| x as nat)
                + element_positions(cs@, (k + 1) as nat));
        } else {
            assert(element_positions(cs@, k as nat) =~= element_positions(cs@, (k + 1) as nat));
        }
        k = k + 1;
    }
    assert(element_positions(cs@, k as nat) =~= Seq::<nat>::empty());
    assert(element_positions(cs@, 0) =~= pos@.map_values(|x: usize| x as nat));
    pos
}

/// Appends the tokens of the nodes of `cs`.
fn collect_children_tokens(cs: &Vec<XmlNode>, tokens: &mut Vec<String>)
    ensures
        strs(final(tokens)@) == strs(old(tokens)@) + children_tokens(cs@),
    decreases cs,
{
    let ghost t0 = strs(tokens@);
    let mut k: usize = 0;
    assert(cs@.take(0) =~= Seq::<XmlNode>::empty());
    assert(t0 + children_tokens(cs@.take(0)) =~= t0);
    while k < cs.len()
        invariant
            k <= cs@.len(),
            strs(tokens@) == t0 + children_tokens(cs@.take(k as int)),
        decreases cs@.len() - k,
    {
        assert(cs@.take(k + 1).drop_last() =~= cs@.take(k as int));
        assert(cs@.take(k + 1).last() == cs@[k as int]);
        let ghost before = strs(tokens@);
        collect_mathml_tokens(&cs[k], tokens);
        assert(strs(tokens@) =~= t0 + children_tokens(cs@.take(k + 1)));
        k = k + 1;
    }
    assert(cs@.take(cs@.len() as int) =~= cs@);
}

/// Appends a node's MathML tokens.
pub fn collect_mathml_tokens(node: &XmlNode, tokens: &mut Vec<String>)
    ensures
        strs(final(tokens)@) == strs(old(tokens)@) + mathml_tokens(*node),
    decreases node,
{
    let ghost t0 = strs(tokens@);
    match node {
        XmlNode::Element { children, .. } => {
            let tag = node.name();
            if text::str_eq(tag, "mi") || text::str_eq(tag, "mn") || text::str_eq(tag, "mo") || text::str_eq(tag, "ms")
                || text::str_eq(tag, "mtext") {
                match node.text() {
                    Some(t) => {
                        let tc = str_chars(t);
                        let tr = trim_vec(tc.as_slice());
                        if tr.len() > 0 {
                            tokens.push(chars_string(tr.as_slice()));
                            assert(strs(tokens@) =~= t0 + seq![tr@]);
                        } else {
                            assert(strs(tokens@) =~= t0 + Seq::<Seq<char>>::empty());
                        }
                    },
                    None => {
                        assert(strs(tokens@) =~= t0 + Seq::<Seq<char>>::empty());
                    },
                }
            } else if text::str_eq(tag, "mfrac") || text::str_eq(tag, "msup") || text::str_eq(tag, "msub") {
                let pos = element_positions_exec(children);
                proof {
                    if pos@.len() == 2 {
                        assert(pos@.map_values(|x: usize| x as nat)[0] == pos@[0] as nat);
                        assert(pos@.map_values(|x: usize| x as nat)[1] == pos@[1] as nat);
                    }
                }
                if pos.len() == 2 {
                    let mut a: Vec<String> = Vec::new();
                    collect_mathml_tokens(&children[pos[0]], &mut a);
                    let mut b: Vec<String> = Vec::new();
                    collect_mathml_tokens(&children[pos[1]], &mut b);
                    assert(strs(a@) =~= mathml_tokens(children@[pos@[0] as int]));
                    assert(strs(b@) =~= mathml_tokens(children@[pos@[1] as int]));
                    let ja = join_strings(&a);
                    let jb = join_strings(&b);
                    if text::str_eq(tag, "mfrac") {
                        if a.len() > 0 || b.len() > 0 {
                            let mut f: Vec<char> = Vec::new();
                            push_str(&mut f, "(");
                            push_all(&mut f, ja.as_slice());
                            push_str(&mut f, ")/(");
                            push_all(&mut f, jb.as_slice());
                            push_str(&mut f, ")");
                            tokens.push(chars_string(f.as_slice()));
                            assert(strs(tokens@) =~= t0 + seq![f@]);
                        } else {
                            collect_children_tokens(children, tokens);
                        }
                    } else {
                        let mut f: Vec<char> = Vec::new();
                        push_all(&mut f, ja.as_slice());
                        if text::str_eq(tag, "msup") {
                            push_str(&mut f, "^");
                        } else {
                            push_str(&mut f, "_");
                        }
                        push_all(&mut f, jb.as_slice());
                        tokens.push(chars_string(f.as_slice()));
                        assert(strs(tokens@) =~= t0 + seq![f@]);
                    }
                } else {
                    collect_children_tokens(children, tokens);
                }
            } else if text::str_eq(tag, "msqrt") {
                let mut inner: Vec<String> = Vec::new();
                collect_children_tokens(children, &mut inner);
                assert(strs(inner@) =~= children_tokens(children@));
                let ji = join_strings(&inner);
                let mut f: Vec<char> = Vec::new();
                push_str(&mut f, "sqrt(");
                push_all(&mut f, ji.as_slice());
                push_str(&mut f, ")");
                tokens.push(chars_string(f.as_slice()));
                assert(strs(tokens@) =~= t0 + seq![f@]);
            } else {
                collect_children_tokens(children, tokens);
            }
        },
        _ => {
            assert(strs(tokens@) =~= t0 + Seq::<Seq<char>>::empty());
        },
    }
}

/// Strings joined with single spaces.
fn join_strings(v: &Vec<String>) -> (r: Vec<char>)
    ensures
        r@ == join_spaces(strs(v@)),
{
    let mut parts: Vec<Vec<char>> = Vec::new();
    let mut k: usize = 0;
    while k < v.len()
        invariant
            k <= v@.len(),
            text::views(parts@) == strs(v@).take(k as int),
        decreases v@.len() - k,
    {
        let ghost before = text::views(parts@);
        let c = str_chars(v[k].as_str());
        parts.push(c);
        assert(text::views(parts@) =~= before.push(v@[k as int]@));
        assert(strs(v@).take(k + 1) =~= strs(v@).take(k as int).push(v@[k as int]@));
        k = k + 1;
    }
    assert(strs(v@).take(k as int) =~= strs(v@));
    join_with_spaces(&parts)
}

/// The text of a parsed MathML formula: its tokens joined with spaces.
pub fn mathml_tree_text(root: &XmlNode) -> (r: String)
    ensures
        r@ == join_spaces(mathml_tokens(*root)),
{
    let mut tokens: Vec<String> = Vec::new();
    assert(strs(tokens@) =~= Seq::<Seq<char>>::empty());
    collect_mathml_tokens(root, &mut tokens);
    assert(strs(tokens@) =~= mathml_tokens(*root));
    let j = join_strings(&tokens);
    chars_string(j.as_slice())
}

/// The text of a MathML formula: the tokens of its root element joined with
/// spaces; empty where the formula is not well-formed XML.
pub fn extract_mathml_text(xml: &str) -> (r: String)
    ensures
        r@ == match xml_parsed(xml@) {
            Some(root) => join_spaces(mathml_tokens(root)),
            None => Seq::<char>::empty(),
        },
{
    match parse_xml(xml) {
        Some(root) => mathml_tree_text(&root),
        None => String::new(),
    }
}


// ---------------------------------------------------------------------------
// Styles
// ---------------------------------------------------------------------------

/// The OpenDocument style namespace.
pub const STYLE_NS: &'static str = "urn:oasis:names:tc:opendocument:xmlns:style:1.0";
/// The XSL formatting-objects namespace.
pub const FO_NS: &'static str = "urn:oasis:names:tc:opendocument:xmlns:xsl-fo-compatible:1.0";
/// The OpenDocument text namespace.
pub const TEXT_NS: &'static str = "urn:oasis:names:tc:opendocument:xmlns:text:1.0";
/// The XLink namespace.
pub const XLINK_NS: &'static str = "http://www.w3.org/1999/xlink";

/// The text formatting a style gives.
#[derive(Clone, Debug, PartialEq, Eq)]
pub struct OdtStyleProps {
    pub bold: bool,
    pub italic: bool,
    pub underline: bool,
    pub strikethrough: bool,
    pub color: Option<String>,
    pub font_size: Option<String>,
}

/// The mathematical value of style properties.
pub struct PropsView {
    pub bold: bool,
    pub italic: bool,
    pub underline: bool,
    pub strikethrough: bool,
    pub color: Option<Seq<char>>,
    pub font_size: Option<Seq<char>>,
}

impl View for OdtStyleProps {
    type V = PropsView;

    open spec fn view(&self) -> PropsView {
        PropsView {
            bold: self.bold,
            italic: self.italic,
            underline: self.underline,
            strikethrough: self.strikethrough,
            color: opt_str(self.color),
            font_size: opt_str(self.font_size),
        }
    }
}

/// No formatting.
pub open spec fn plain_props() -> PropsView {
    PropsView { bold: false, italic: false, underline: false, strikethrough: false, color: None, font_size: None }
}

/// `p` updated by a `text-properties` node: weight, style, underline, line-through,
/// a color other than black, and size, each where the node gives it.
pub open spec fn props_update(p: PropsView, pc: XmlNode) -> PropsView {
    let p1 = match attr_or(pc, FO_NS@, "font-weight"@, "fo:font-weight"@) {
        Some(v) => PropsView { bold: v == "bold"@, ..p },
        None => p,
    };
    let p2 = match attr_or(pc, FO_NS@, "font-style"@, "fo:font-style"@) {
        Some(v) => PropsView { italic: v == "italic"@, ..p1 },
        None => p1,
    };
    let p3 = match attr_or(pc, STYLE_NS@, "text-underline-style"@, "style:text-underline-style"@) {
        Some(v) => PropsView { underline: v != "none"@, ..p2 },
        None => p2,
    };
    let p4 = match attr_or(pc, STYLE_NS@, "text-line-through-style"@, "style:text-line-through-style"@) {
        Some(v) => PropsView { strikethrough: v != "none"@, ..p3 },
        None => p3,
    };
    let p5 = match attr_or(pc, FO_NS@, "color"@, "fo:color"@) {
        Some(v) => if v != "#000000"@ {
            PropsView { color: Some(v), ..p4 }
        } else {
            p4
        },
        None => p4,
    };
    match attr_or(pc, FO_NS@, "font-size"@, "fo:font-size"@) {
        Some(v) => PropsView { font_size: Some(v), ..p5 },
        None => p5,
    }
}

/// The properties a style node's `text-properties` children give, in order.
pub open spec fn style_props(cs: Seq<XmlNode>) -> PropsView
    decreases cs.len(),
{
    if cs.len() == 0 {
        plain_props()
    } else {
        let p = style_props(cs.drop_last());
        if node_name(cs.last()) == "text-properties"@ {
            props_update(p, cs.last())
        } else {
            p
        }
    }
}

/// The line-through style a `text-properties` node gives.
pub open spec fn line_through(pc: XmlNode) -> Option<Seq<char>> {
    attr_or(pc, STYLE_NS@, "text-line-through-style"@, "style:text-line-through-style"@)
}

/// A style is struck through exactly when the last of its `text-properties`
/// children that gives a line-through style gives one other than `none`; the
/// other attributes do not change that.
pub proof fn lemma_line_through_strikethrough(cs: Seq<XmlNode>, k: int)
    requires
        0 <= k < cs.len(),
        node_name(cs[k]) == "text-properties"@,
        line_through(cs[k]) is Some,
        forall|j: int| k < j < cs.len() && node_name(#[trigger] cs[j]) == "text-properties"@ ==> line_through(cs[j]) is None,
    ensures
        style_props(cs).strikethrough == (line_through(cs[k])->0 != "none"@),
    decreases cs.len(),
{
    if k < cs.len() - 1 {
        let pre = cs.drop_last();
        assert forall|j: int| k < j < pre.len() && node_name(#[trigger] pre[j]) == "text-properties"@ implies line_through(pre[j]) is None by {
            assert(pre[j] == cs[j]);
        }
        assert(pre[k] == cs[k]);
        lemma_line_through_strikethrough(pre, k);
        assert(cs.last() == cs[cs.len() - 1]);
    } else {
        assert(cs.last() == cs[k]);
    }
}

/// The font weight a `text-properties` node gives.
pub open spec fn font_weight(pc: XmlNode) -> Option<Seq<char>> {
    attr_or(pc, FO_NS@, "font-weight"@, "fo:font-weight"@)
}

/// The font style a `text-properties` node gives.
pub open spec fn font_style(pc: XmlNode) -> Option<Seq<char>> {
    attr_or(pc, FO_NS@, "font-style"@, "fo:font-style"@)
}

/// The underline style a `text-properties` node gives.
pub open spec fn underline_style(pc: XmlNode) -> Option<Seq<char>> {
    attr_or(pc, STYLE_NS@, "text-underline-style"@, "style:text-underline-style"@)
}

/// A style is bold exactly when the last of its `text-properties` children that
/// gives a font weight gives `bold`.
pub proof fn lemma_font_weight_bold(cs: Seq<XmlNode>, k: int)
    requires
        0 <= k < cs.len(),
        node_name(cs[k]) == "text-properties"@,
        font_weight(cs[k]) is Some,
        forall|j: int| k < j < cs.len() && node_name(#[trigger] cs[j]) == "text-properties"@ ==> font_weight(cs[j]) is None,
    ensures
        style_props(cs).bold == (font_weight(cs[k])->0 == "bold"@),
    decreases cs.len(),
{
    if k < cs.len() - 1 {
        let pre = cs.drop_last();
        assert forall|j: int| k < j < pre.len() && node_name(#[trigger] pre[j]) == "text-properties"@ implies font_weight(pre[j]) is None by {
            assert(pre[j] == cs[j]);
        }
        assert(pre[k] == cs[k]);
        lemma_font_weight_bold(pre, k);
        assert(cs.last() == cs[cs.len() - 1]);
    } else {
        assert(cs.last() == cs[k]);
    }
}

/// A style is italic exactly when the last of its `text-properties` children
/// that gives a font style gives `italic`.
pub proof fn lemma_font_style_italic(cs: Seq<XmlNode>, k: int)
    requires
        0 <= k < cs.len(),
        node_name(cs[k]) == "text-properties"@,
        font_style(cs[k]) is Some,
        forall|j: int| k < j < cs.len() && node_name(#[trigger] cs[j]) == "text-properties"@ ==> font_style(cs[j]) is None,
    ensures
        style_props(cs).italic == (font_style(cs[k])->0 == "italic"@),
    decreases cs.len(),
{
    if k < cs.len() - 1 {
        let pre = cs.drop_last();
        assert forall|j: int| k < j < pre.len() && node_name(#[trigger] pre[j]) == "text-properties"@ implies font_style(pre[j]) is None by {
            assert(pre[j] == cs[j]);
        }
        assert(pre[k] == cs[k]);
        lemma_font_style_italic(pre, k);
        assert(cs.last() == cs[cs.len() - 1]);
    } else {
        assert(cs.last() == cs[k]);
    }
}

/// A style is underlined exactly when the last of its `text-properties`
/// children that gives an underline style gives one other than `none`.
pub proof fn lemma_underline_style(cs: Seq<XmlNode>, k: int)
    requires
        0 <= k < cs.len(),
        node_name(cs[k]) == "text-properties"@,
        underline_style(cs[k]) is Some,
        forall|j: int| k < j < cs.len() && node_name(#[trigger] cs[j]) == "text-properties"@ ==> underline_style(cs[j]) is None,
    ensures
        style_props(cs).underline == (underline_style(cs[k])->0 != "none"@),
    decreases cs.len(),
{
    if k < cs.len() - 1 {
        let pre = cs.drop_last();
        assert forall|j: int| k < j < pre.len() && node_name(#[trigger] pre[j]) == "text-properties"@ implies underline_style(pre[j]) is None by {
            assert(pre[j] == cs[j]);
        }
        assert(pre[k] == cs[k]);
        lemma_underline_style(pre, k);
        assert(cs.last() == cs[cs.len() - 1]);
    } else {
        assert(cs.last() == cs[k]);
    }
}

/// A style node's name.
pub open spec fn style_name(n: XmlNode) -> Option<Seq<char>> {
    attr_or(n, STYLE_NS@, "name"@, "style:name"@)
}

/// The named `style` nodes of a styles section, with their properties, in order.
pub open spec fn section_styles(cs: Seq<XmlNode>) -> Seq<(Seq<char>, PropsView)>
    decreases cs.len(),
{
    if cs.len() == 0 {
        seq![]
    } else {
        let c = cs.last();
        section_styles(cs.drop_last()) + if node_name(c) == "style"@ && style_name(c) is Some {
            seq![(style_name(c)->0, style_props(node_children(c)))]
        } else {
            seq![]
        }
    }
}

/// The styles of the `automatic-styles` and `styles` sections among `cs`, in
/// order; a later style of a name overrides an earlier one.
pub open spec fn style_entries(cs: Seq<XmlNode>) -> Seq<(Seq<char>, PropsView)>
    decreases cs.len(),
{
    if cs.len() == 0 {
        seq![]
    } else {
        let c = cs.last();
        style_entries(cs.drop_last()) + if node_name(c) == "automatic-styles"@ || node_name(c) == "styles"@ {
            section_styles(node_children(c))
        } else {
            seq![]
        }
    }
}

/// The properties of the last style named `name`.
pub open spec fn style_lookup(es: Seq<(Seq<char>, PropsView)>, name: Seq<char>) -> Option<PropsView>
    decreases es.len(),
{
    if es.len() == 0 {
        None
    } else if es.last().0 == name {
        Some(es.last().1)
    } else {
        style_lookup(es.drop_last(), name)
    }
}

/// Styles by name.
pub struct StyleMap {
    entries: Vec<(String, OdtStyleProps)>,
}

/// The views of style entries.
pub open spec fn entries_view(v: Seq<(String, OdtStyleProps)>) -> Seq<(Seq<char>, PropsView)> {
    v.map_values(|e: (String, OdtStyleProps)| (e.0@, e.1@))
}

impl StyleMap {
    /// The styles in the order they were read.
    pub closed spec fn entries(&self) -> Seq<(Seq<char>, PropsView)> {
        entries_view(self.entries@)
    }

    /// The properties of the style `name`.
    pub fn get(&self, name: &str) -> (r: Option<&OdtStyleProps>)
        ensures
            match r {
                Some(p) => style_lookup(self.entries(), name@) == Some(p@),
                None => style_lookup(self.entries(), name@) is None,
            },
    {
        let ghost es = self.entries();
        let mut k = self.entries.len();
        assert(es.take(k as int) =~= es);
        while k > 0
            invariant
                k <= self.entries@.len(),
                es == self.entries(),
                style_lookup(es, name@) == style_lookup(es.take(k as int), name@),
            decreases k,
        {
            assert(es.take(k as int).drop_last() =~= es.take(k - 1));
            assert(es.take(k as int).last() == es[k - 1]);
            if text::str_eq(self.entries[k - 1].0.as_str(), name) {
                return Some(&self.entries[k - 1].1);
            }
            k = k - 1;
        }
        None
    }
}

/// A copy of an optional string.
fn copy_opt(o: Option<&str>) -> (r: Option<String>)
    ensures
        opt_str(r) == match o {
            Some(x) => Some(x@),
            None => None,
        },
{
    match o {
        Some(x) => Some(x.to_owned()),
        None => None,
    }
}

/// The properties a style node's children give.
fn style_props_exec(cs: &[XmlNode]) -> (r: OdtStyleProps)
    ensures
        r@ == style_props(cs@),
{
    let mut p = OdtStyleProps {
        bold: false,
        italic: false,
        underline: false,
        strikethrough: false,
        color: None,
        font_size: None,
    };
    let mut k: usize = 0;
    assert(cs@.take(0) =~= Seq::<XmlNode>::empty());
    while k < cs.len()
        invariant
            k <= cs@.len(),
            p@ == style_props(cs@.take(k as int)),
        decreases cs@.len() - k,
    {
        assert(cs@.take(k + 1).drop_last() =~= cs@.take(k as int));
        assert(cs@.take(k + 1).last() == cs@[k as int]);
        let pc = &cs[k];
        if pc.is_named("text-properties") {
            match pc.attribute_or(FO_NS, "font-weight", "fo:font-weight") {
                Some(v) => {
                    p.bold = text::str_eq(v, "bold");
                },
                None => {},
            }
            match pc.attribute_or(FO_NS, "font-style", "fo:font-style") {
                Some(v) => {
                    p.italic = text::str_eq(v, "italic");
                },
                None => {},
            }
            match pc.attribute_or(STYLE_NS, "text-underline-style", "style:text-underline-style") {
                Some(v) => {
                    p.underline = !text::str_eq(v, "none");
                },
                None => {},
            }
            match pc.attribute_or(STYLE_NS, "text-line-through-style", "style:text-line-through-style") {
                Some(v) => {
                    p.strikethrough = !text::str_eq(v, "none");
                },
                None => {},
            }
            match pc.attribute_or(FO_NS, "color", "fo:color") {
                Some(v) => {
                    if !text::str_eq(v, "#000000") {
                        p.color = Some(v.to_owned());
                    }
                },
                None => {},
            }
            match pc.attribute_or(FO_NS, "font-size", "fo:font-size") {
                Some(v) => {
                    p.font_size = Some(v.to_owned());
                },
                None => {},
            }
        }
        k = k + 1;
    }
    assert(cs@.take(cs@.len() as int) =~= cs@);
    p
}

/// The styles of content or styles XML, by name: the `style` nodes of its
/// `automatic-styles` and `styles` sections with their text properties.
pub fn build_style_map(root: &XmlNode) -> (r: StyleMap)
    ensures
        r.entries() == style_entries(node_children(*root)),
{
    let cs = root.children();
    let mut entries: Vec<(String, OdtStyleProps)> = Vec::new();
    let mut k: usize = 0;
    assert(cs@.take(0) =~= Seq::<XmlNode>::empty());
    assert(entries_view(entries@) =~= Seq::<(Seq<char>, PropsView)>::empty());
    while k < cs.len()
        invariant
            k <= cs@.len(),
            cs@ == node_children(*root),
            entries_view(entries@) == style_entries(cs@.take(k as int)),
        decreases cs@.len() - k,
    {
        assert(cs@.take(k + 1).drop_last() =~= cs@.take(k as int));
        assert(cs@.take(k + 1).last() == cs@[k as int]);
        let ghost e0 = entries_view(entries@);
        let child = &cs[k];
        if child.is_named("automatic-styles") || child.is_named("styles") {
            let ss = child.children();
            let mut j: usize = 0;
            assert(ss@.take(0) =~= Seq::<XmlNode>::empty());
            assert(e0 + section_styles(ss@.take(0)) =~= e0);
            while j < ss.len()
                invariant
                    j <= ss@.len(),
                    ss@ == node_children(*child),
                    entries_view(entries@) == e0 + section_styles(ss@.take(j as int)),
                decreases ss@.len() - j,
            {
                assert(ss@.take(j + 1).drop_last() =~= ss@.take(j as int));
                assert(ss@.take(j + 1).last() == ss@[j as int]);
                let ghost before = entries_view(entries@);
                let sn = &ss[j];
                if sn.is_named("style") {
                    match sn.attribute_or(STYLE_NS, "name", "style:name") {
                        Some(name) => {
                            let props = style_props_exec(sn.children());
                            let e = (name.to_owned(), props);
                            let ghost ev = (e.0@, e.1@);
                            entries.push(e);
                            assert(entries_view(entries@) =~= before + seq![ev]);
                        },
                        None => {
                            assert(entries_view(entries@) =~= before + Seq::<(Seq<char>, PropsView)>::empty());
                        },
                    }
                } else {
                    assert(entries_view(entries@) =~= before + Seq::<(Seq<char>, PropsView)>::empty());
                }
                j = j + 1;
            }
            assert(ss@.take(ss@.len() as int) =~= ss@);
        } else {
            assert(entries_view(entries@) =~= e0 + Seq::<(Seq<char>, PropsView)>::empty());
        }
        k = k + 1;
    }
    assert(cs@.take(cs@.len() as int) =~= cs@);
    StyleMap { entries }
}


// ---------------------------------------------------------------------------
// Paragraph text with annotations
// ---------------------------------------------------------------------------

/// The annotations a style puts on `start..end`: bold, italic, underline,
/// strikethrough, color and font size, in that order.
pub open spec fn style_anns(p: PropsView, start: u32, end: u32) -> Seq<AnnView> {
    (if p.bold {
        seq![AnnView { start, end, kind: KindView::Bold }]
    } else {
        seq![]
    }) + (if p.italic {
        seq![AnnView { start, end, kind: KindView::Italic }]
    } else {
        seq![]
    }) + (if p.underline {
        seq![AnnView { start, end, kind: KindView::Underline }]
    } else {
        seq![]
    }) + (if p.strikethrough {
        seq![AnnView { start, end, kind: KindView::Strikethrough }]
    } else {
        seq![]
    }) + match p.color {
        Some(c) => seq![AnnView { start, end, kind: KindView::Color { value: c } }],
        None => seq![],
    } + match p.font_size {
        Some(f) => seq![AnnView { start, end, kind: KindView::FontSize { value: f } }],
        None => seq![],
    }
}

/// Text, annotations and URIs gathered so far.
pub struct Gathered {
    pub text: Seq<char>,
    pub anns: Seq<AnnView>,
    pub uris: Seq<UriView>,
}

/// A node's text, or nothing.
pub open spec fn text_or_empty(n: XmlNode) -> Seq<char> {
    match node_text(n) {
        Some(t) => t,
        None => seq![],
    }
}

/// What a child of a paragraph adds: a span's text with its style's
/// annotations, a tab, a line break, nothing for a note, a link's text with a
/// link annotation and URI, or any other node's text.
pub open spec fn gather_child(g: Gathered, c: XmlNode, styles: Seq<(Seq<char>, PropsView)>) -> Gathered {
    let name = node_name(c);
    if name == "span"@ {
        let t = text_or_empty(c);
        if t.len() == 0 {
            g
        } else {
            let start = byte_offset(g.text);
            let text2 = g.text + t;
            let end = byte_offset(text2);
            let anns2 = match attr_or(c, TEXT_NS@, "style-name"@, "text:style-name"@) {
                Some(n) => match style_lookup(styles, n) {
                    Some(p) => g.anns + style_anns(p, start, end),
                    None => g.anns,
                },
                None => g.anns,
            };
            Gathered { text: text2, anns: anns2, ..g }
        }
    } else if name == "tab"@ {
        Gathered { text: g.text + "\t"@, ..g }
    } else if name == "line-break"@ {
        Gathered { text: g.text + "\n"@, ..g }
    } else if name == "note"@ {
        g
    } else if name == "a"@ {
        let lt = text_or_empty(c);
        if lt.len() == 0 {
            g
        } else {
            let start = byte_offset(g.text);
            let text2 = g.text + lt;
            let end = byte_offset(text2);
            let url = match attr_or(c, XLINK_NS@, "href"@, "xlink:href"@) {
                Some(u) => u,
                None => seq![],
            };
            if url.len() > 0 {
                Gathered {
                    text: text2,
                    anns: g.anns.push(AnnView { start, end, kind: KindView::Link { url, title: None } }),
                    uris: g.uris.push(UriView { url, label: Some(lt), kind: link_kind(url) }),
                }
            } else {
                Gathered { text: text2, ..g }
            }
        }
    } else {
        match node_text(c) {
            Some(t) => Gathered { text: g.text + t, ..g },
            None => g,
        }
    }
}

/// What the children of a paragraph add, in order.
pub open spec fn gather(cs: Seq<XmlNode>, styles: Seq<(Seq<char>, PropsView)>) -> Gathered
    decreases cs.len(),
{
    if cs.len() == 0 {
        Gathered { text: seq![], anns: seq![], uris: seq![] }
    } else {
        gather_child(gather(cs.drop_last(), styles), cs.last(), styles)
    }
}

/// A span whose style is struck through gets a strikethrough annotation over
/// the bytes its text takes in the paragraph.
pub proof fn lemma_struck_span(g: Gathered, c: XmlNode, styles: Seq<(Seq<char>, PropsView)>, n: Seq<char>)
    requires
        node_name(c) == "span"@,
        text_or_empty(c).len() > 0,
        attr_or(c, TEXT_NS@, "style-name"@, "text:style-name"@) == Some(n),
        style_lookup(styles, n) matches Some(p) && p.strikethrough,
    ensures
        gather_child(g, c, styles).text == g.text + text_or_empty(c),
        gather_child(g, c, styles).anns.contains(
            AnnView {
                start: byte_offset(g.text),
                end: byte_offset(g.text + text_or_empty(c)),
                kind: KindView::Strikethrough,
            },
        ),
{
    let p = style_lookup(styles, n)->0;
    let start = byte_offset(g.text);
    let end = byte_offset(g.text + text_or_empty(c));
    let a = AnnView { start, end, kind: KindView::Strikethrough };
    let sa = style_anns(p, start, end);
    let k = (if p.bold { 1int } else { 0int }) + (if p.italic { 1int } else { 0int }) + (if p.underline {
        1int
    } else {
        0int
    });
    assert(sa[k] == a);
    let r = gather_child(g, c, styles).anns;
    assert(r == g.anns + sa);
    assert(r[g.anns.len() + k] == a);
}

/// A paragraph's text, annotations and URIs; the node's own text when its
/// children give none.
pub open spec fn spec_odt_annotations(node: XmlNode, styles: Seq<(Seq<char>, PropsView)>) -> Gathered {
    let g = gather(node_children(node), styles);
    if g.text.len() == 0 && node_text(node) is Some {
        Gathered { text: node_text(node)->0, ..g }
    } else {
        g
    }
}

/// The annotations style `p` puts on `start..end`.
fn style_anns_exec(p: &OdtStyleProps, start: u32, end: u32) -> (r: Vec<TextAnnotation>)
    ensures
        anns_view(r@) == style_anns(p@, start, end),
{
    let ghost pv = p@;
    let mut v: Vec<TextAnnotation> = Vec::new();
    if p.bold {
        v.push(TextAnnotation { start, end, kind: AnnotationKind::Bold });
    }
    let ghost s1 = if pv.bold {
        seq![AnnView { start, end, kind: KindView::Bold }]
    } else {
        Seq::<AnnView>::empty()
    };
    assert(anns_view(v@) =~= s1);
    if p.italic {
        v.push(TextAnnotation { start, end, kind: AnnotationKind::Italic });
    }
    let ghost s2 = s1 + if pv.italic {
        seq![AnnView { start, end, kind: KindView::Italic }]
    } else {
        Seq::<AnnView>::empty()
    };
    assert(anns_view(v@) =~= s2);
    if p.underline {
        v.push(TextAnnotation { start, end, kind: AnnotationKind::Underline });
    }
    let ghost s3 = s2 + if pv.underline {
        seq![AnnView { start, end, kind: KindView::Underline }]
    } else {
        Seq::<AnnView>::empty()
    };
    assert(anns_view(v@) =~= s3);
    if p.strikethrough {
        v.push(TextAnnotation { start, end, kind: AnnotationKind::Strikethrough });
    }
    let ghost s4 = s3 + if pv.strikethrough {
        seq![AnnView { start, end, kind: KindView::Strikethrough }]
    } else {
        Seq::<AnnView>::empty()
    };
    assert(anns_view(v@) =~= s4);
    match &p.color {
        Some(c) => {
            v.push(TextAnnotation { start, end, kind: AnnotationKind::Color { value: c.clone() } });
        },
        None => {},
    }
    let ghost s5 = s4 + match pv.color {
        Some(c) => seq![AnnView { start, end, kind: KindView::Color { value: c } }],
        None => Seq::<AnnView>::empty(),
    };
    assert(anns_view(v@) =~= s5);
    match &p.font_size {
        Some(f) => {
            v.push(TextAnnotation { start, end, kind: AnnotationKind::FontSize { value: f.clone() } });
        },
        None => {},
    }
    assert(anns_view(v@) =~= s5 + match pv.font_size {
        Some(f) => seq![AnnView { start, end, kind: KindView::FontSize { value: f } }],
        None => Seq::<AnnView>::empty(),
    });
    v
}

/// Appends the annotations style `p` puts on `start..end`.
fn push_style_anns(anns: &mut Vec<TextAnnotation>, p: &OdtStyleProps, start: u32, end: u32)
    ensures
        anns_view(final(anns)@) == anns_view(old(anns)@) + style_anns(p@, start, end),
{
    let ghost a0 = anns@;
    let mut extra = style_anns_exec(p, start, end);
    let ghost ev = extra@;
    anns.append(&mut extra);
    assert(anns@ =~= a0 + ev);
    assert(anns_view(anns@) =~= anns_view(a0) + anns_view(ev));
}

/// A paragraph's text from its spans, tabs, line breaks, links and other
/// children, with the annotations its span styles and links give and the URIs of
/// its links.
pub fn collect_odt_annotations(node: &XmlNode, style_map: &StyleMap) -> (r: (String, Vec<TextAnnotation>, Vec<UriRef>))
    ensures
        r.0@ == spec_odt_annotations(*node, style_map.entries()).text,
        anns_view(r.1@) == spec_odt_annotations(*node, style_map.entries()).anns,
        r.2@.map_values(|u: UriRef| u@) == spec_odt_annotations(*node, style_map.entries()).uris,
{
    let ghost styles = style_map.entries();
    let cs = node.children();
    let mut out: Vec<char> = Vec::new();
    let mut anns: Vec<TextAnnotation> = Vec::new();
    let mut uris: Vec<UriRef> = Vec::new();
    let mut k: usize = 0;
    assert(cs@.take(0) =~= Seq::<XmlNode>::empty());
    assert(anns_view(anns@) =~= Seq::<AnnView>::empty());
    assert(uris@.map_values(|u: UriRef| u@) =~= Seq::<UriView>::empty());
    while k < cs.len()
        invariant
            k <= cs@.len(),
            cs@ == node_children(*node),
            styles == style_map.entries(),
            gather(cs@.take(k as int), styles) == (Gathered {
                text: out@,
                anns: anns_view(anns@),
                uris: uris@.map_values(|u: UriRef| u@),
            }),
        decreases cs@.len() - k,
    {
        assert(cs@.take(k + 1).drop_last() =~= cs@.take(k as int));
        assert(cs@.take(k + 1).last() == cs@[k as int]);
        let ghost g0 = gather(cs@.take(k as int), styles);
        let c = &cs[k];
        if c.is_named("span") {
            let t = match c.text() {
                Some(x) => str_chars(x),
                None => Vec::new(),
            };
            assert(t@ == text_or_empty(*c));
            if t.len() > 0 {
                let start = byte_offset_exec(out.as_slice());
                push_all(&mut out, t.as_slice());
                let end = byte_offset_exec(out.as_slice());
                match c.attribute_or(TEXT_NS, "style-name", "text:style-name") {
                    Some(n) => match style_map.get(n) {
                        Some(p) => {
                            push_style_anns(&mut anns, p, start, end);
                        },
                        None => {},
                    },
                    None => {},
                }
            }
        } else if c.is_named("tab") {
            push_str(&mut out, "\t");
        } else if c.is_named("line-break") {
            push_str(&mut out, "\n");
        } else if c.is_named("note") {
        } else if c.is_named("a") {
            let lt = match c.text() {
                Some(x) => str_chars(x),
                None => Vec::new(),
            };
            assert(lt@ == text_or_empty(*c));
            if lt.len() > 0 {
                let start = byte_offset_exec(out.as_slice());
                push_all(&mut out, lt.as_slice());
                let end = byte_offset_exec(out.as_slice());
                let url = match c.attribute_or(XLINK_NS, "href", "xlink:href") {
                    Some(u) => str_chars(u),
                    None => Vec::new(),
                };
                if url.len() > 0 {
                    let us = chars_string(url.as_slice());
                    let ghost a0 = anns_view(anns@);
                    let ghost u0 = uris@.map_values(|u: UriRef| u@);
                    anns.push(TextAnnotation { start, end, kind: AnnotationKind::Link { url: us.clone(), title: None } });
                    assert(anns_view(anns@) =~= a0.push(
                        AnnView { start, end, kind: KindView::Link { url: url@, title: None } },
                    ));
                    let kind = if text::starts_with_str(url.as_slice(), "#") {
                        UriKind::Anchor
                    } else if text::starts_with_str(url.as_slice(), "mailto:") {
                        UriKind::Email
                    } else {
                        UriKind::Hyperlink
                    };
                    let uri = UriRef { url: us, label: Some(chars_string(lt.as_slice())), kind };
                    let ghost uv = uri@;
                    uris.push(uri);
                    assert(uris@.map_values(|u: UriRef| u@) =~= u0.push(uv));
                }
            }
        } else {
            match c.text() {
                Some(t) => {
                    push_str(&mut out, t);
                },
                None => {},
            }
        }
        assert(gather(cs@.take(k + 1), styles) == gather_child(g0, cs@[k as int], styles));
        k = k + 1;
    }
    assert(cs@.take(cs@.len() as int) =~= cs@);
    if out.len() == 0 {
        match node.text() {
            Some(t) => {
                out = str_chars(t);
            },
            None => {},
        }
    }
    (chars_string(out.as_slice()), anns, uris)
}


// ---------------------------------------------------------------------------
// Lists
// ---------------------------------------------------------------------------

/// A list: its start, the items of its `list-item` children, its end.
pub open spec fn list_doc(n: XmlNode, d: DocView) -> DocView
    decreases n, 2nat,
{
    match n {
        XmlNode::Element { children, .. } => add_elem(
            items_doc(children@, add_elem(d, plain(ElementKind::ListStart { ordered: false }, seq![]))),
            plain(ElementKind::ListEnd, seq![]),
        ),
        _ => add_elem(
            add_elem(d, plain(ElementKind::ListStart { ordered: false }, seq![])),
            plain(ElementKind::ListEnd, seq![]),
        ),
    }
}

/// The items of the `list-item` nodes among `cs`.
pub open spec fn items_doc(cs: Seq<XmlNode>, d: DocView) -> DocView
    decreases cs, 1nat,
{
    if cs.len() == 0 {
        d
    } else {
        let d1 = items_doc(cs.drop_last(), d);
        match cs.last() {
            XmlNode::Element { name, children, .. } => if name@ == "list-item"@ {
                item_parts_doc(children@, d1)
            } else {
                d1
            },
            _ => d1,
        }
    }
}

/// What the children of a list item add: an item for each `p` or `h` with
/// text, and nested lists.
pub open spec fn item_parts_doc(cs: Seq<XmlNode>, d: DocView) -> DocView
    decreases cs, 0nat,
{
    if cs.len() == 0 {
        d
    } else {
        let d1 = item_parts_doc(cs.drop_last(), d);
        let c = cs.last();
        if node_name(c) == "p"@ || node_name(c) == "h"@ {
            match spec_node_text(c) {
                Some(t) => if text::trim(t).len() > 0 {
                    add_elem(d1, plain(ElementKind::ListItem { ordered: false }, text::trim(t)))
                } else {
                    d1
                },
                None => d1,
            }
        } else if node_name(c) == "list"@ {
            list_doc(c, d1)
        } else {
            d1
        }
    }
}

/// Adds the items of a list item's children.
fn push_item_children(cs: &Vec<XmlNode>, doc: &mut InternalDocument)
    ensures
        final(doc)@ == item_parts_doc(cs@, old(doc)@),
        final(doc).source_format == old(doc).source_format,
    decreases cs,
{
    let ghost d0 = doc@;
    let mut k: usize = 0;
    assert(cs@.take(0) =~= Seq::<XmlNode>::empty());
    while k < cs.len()
        invariant
            k <= cs@.len(),
            doc@ == item_parts_doc(cs@.take(k as int), d0),
            doc.source_format == old(doc).source_format,
        decreases cs@.len() - k,
    {
        assert(cs@.take(k + 1).drop_last() =~= cs@.take(k as int));
        assert(cs@.take(k + 1).last() == cs@[k as int]);
        let c = &cs[k];
        if c.is_named("p") || c.is_named("h") {
            match extract_node_text(c) {
                Some(t) => {
                    let tc = str_chars(t.as_str());
                    let tr = trim_vec(tc.as_slice());
                    if tr.len() > 0 {
                        doc.push_plain(ElementKind::ListItem { ordered: false }, tr.as_slice());
                    }
                },
                None => {},
            }
        } else if c.is_named("list") {
            build_internal_list(c, doc);
        }
        k = k + 1;
    }
    assert(cs@.take(cs@.len() as int) =~= cs@);
}

/// Adds the items of the `list-item` nodes among `cs`.
fn push_list_entries(cs: &Vec<XmlNode>, doc: &mut InternalDocument)
    ensures
        final(doc)@ == items_doc(cs@, old(doc)@),
        final(doc).source_format == old(doc).source_format,
    decreases cs,
{
    let ghost d0 = doc@;
    let mut k: usize = 0;
    assert(cs@.take(0) =~= Seq::<XmlNode>::empty());
    while k < cs.len()
        invariant
            k <= cs@.len(),
            doc@ == items_doc(cs@.take(k as int), d0),
            doc.source_format == old(doc).source_format,
        decreases cs@.len() - k,
    {
        assert(cs@.take(k + 1).drop_last() =~= cs@.take(k as int));
        assert(cs@.take(k + 1).last() == cs@[k as int]);
        match &cs[k] {
            XmlNode::Element { name, children, .. } => {
                if text::str_eq(name.as_str(), "list-item") {
                    push_item_children(children, doc);
                }
            },
            _ => {},
        }
        k = k + 1;
    }
    assert(cs@.take(cs@.len() as int) =~= cs@);
}

/// Adds a `text:list` element as a list, nested lists included.
pub fn build_internal_list(list_node: &XmlNode, doc: &mut InternalDocument)
    ensures
        final(doc)@ == list_doc(*list_node, old(doc)@),
        final(doc).source_format == old(doc).source_format,
    decreases list_node,
{
    let none: Vec<char> = Vec::new();
    assert(none@ =~= Seq::<char>::empty());
    doc.push_plain(ElementKind::ListStart { ordered: false }, none.as_slice());
    match list_node {
        XmlNode::Element { children, .. } => {
            push_list_entries(children, doc);
        },
        _ => {},
    }
    doc.push_plain(ElementKind::ListEnd, none.as_slice());
}

} // verus!
