//! Building the structured LaTeX document, line by line, as `structure` states it.

use vstd::prelude::*;
use crate::text;
use crate::text::{
    join_with_spaces, lines_exec, chars_string, contains_str, find_str, push_all, push_str, slice_vec, split_char_exec, starts_with_str,
    str_chars, trim_start_vec, trim_vec,
};
use crate::types::{AnnView, AnnotationKind, TextAnnotation, anns_view, opt_str, pairs_view, rows_view};
use crate::document::{
    empty_doc, link_kind_of, meta_elem, code_elem, table_elem, add_elem, add_rels, add_uri, add_uris, footnote_elem, get_byte_range, index_u32, plain, DocView, ElemView,
    ElementKind, InternalDocument, InternalElement, RelKind, RelTarget, RelView, Relationship, TargetView,
    UriRef, UriKind, UriView,
};
use super::LatexExtractor;
use super::commands::eq_str;
use super::inline::{lemma_read_braced_content, read_braced_chars, spec_read_braced_content, spec_strip};
use super::helpers::nonempty_trimmed;
use super::utilities::{extract_braced, spec_extract_braced, clean_text, extract_heading_title, spec_clean_text, spec_extract_heading_title};
use super::parser::{math_collect, trim_end_matches_exec, trim_start_matches_exec};
use super::utilities::{collect_environment, extract_env_name, spec_collect_environment, spec_extract_env_name};
use super::environments::{is_list_env, tabular_in_order, tabular_part};
use super::helpers::{spec_braced_after, spec_code_language, tabular_cells};
use super::parser::is_math_env;
use super::structure::{
    doc_from, meta_entries, meta_entry, spec_latex_document,
    anchored, body_from, caption_doc, env_at, figure_env, is_code_env, is_rule, lemma_step_next, math_elem,
    obey_lines, step, step_next, table_body_cells, table_env,
    item_doc, item_first, item_parts, lemma_collect_lighter, lemma_item_parts, lemma_rest_weight_mono,
    lemma_rest_weight_zero, list_from, opens_list, rest_weight, weight,
    content_end, content_line, display_math, footnote_key, footnotes, heading_cmd, heading_doc,
    heading_level, hyperlink, hyperlinks, image_line, image_placeholder, key_refs, label_of, name_end,
    para_elem, paragraph_doc, refs_in, silent_line,
};

verus! {

// ---------------------------------------------------------------------------
// Elements
// ---------------------------------------------------------------------------

/// Adds an element of `kind` with text, annotations and an anchor.
fn push_text_elem(
    doc: &mut InternalDocument,
    kind: ElementKind,
    t: &[char],
    anns: Vec<TextAnnotation>,
    anchor: Option<String>,
)
    ensures
        final(doc).source_format == old(doc).source_format,
        final(doc)@ == add_elem(
            old(doc)@,
            ElemView { kind, text: t@, anns: anns_view(anns@), attrs: seq![], cells: seq![], anchor: opt_str(anchor) },
        ),
{
    let e = InternalElement {
        kind,
        text: chars_string(t),
        annotations: anns,
        attributes: Vec::new(),
        cells: Vec::new(),
        anchor,
    };
    assert(e@.attrs =~= Seq::<(Seq<char>, Seq<char>)>::empty());
    assert(e@.cells =~= Seq::<Seq<Seq<char>>>::empty());
    doc.push_element(e);
}

/// The index the next element gets, as a `u32`.
fn next_index(doc: &InternalDocument) -> (r: u32)
    ensures
        r == index_u32(doc@.elems.len()),
{
    let n = doc.elements.len();
    ((n as u64) % 0x1_0000_0000) as u32
}

/// The anchor `\label{key}` of `t`.
fn label_exec(t: &[char]) -> (r: Option<String>)
    ensures
        opt_str(r) == label_of(t@),
{
    let s = chars_string(t);
    LatexExtractor::extract_label(s.as_str())
}

/// The hyperlinks of the link annotations of `t`.
fn hyperlinks_exec(t: &[char], anns: &Vec<TextAnnotation>) -> (r: Vec<UriRef>)
    ensures
        r@.map_values(|u: UriRef| u@) == hyperlinks(t@, anns_view(anns@)),
{
    let ghost av = anns_view(anns@);
    let mut out: Vec<UriRef> = Vec::new();
    let mut k: usize = 0;
    assert(av.take(0) =~= Seq::<AnnView>::empty());
    assert(out@.map_values(|u: UriRef| u@) =~= Seq::<UriView>::empty());
    while k < anns.len()
        invariant
            k <= anns@.len(),
            av == anns_view(anns@),
            out@.map_values(|u: UriRef| u@) == hyperlinks(t@, av.take(k as int)),
        decreases anns@.len() - k,
    {
        assert(av.take(k + 1).drop_last() =~= av.take(k as int));
        assert(av.take(k + 1).last() == anns@[k as int]@);
        let ghost o0 = out@.map_values(|u: UriRef| u@);
        let a = &anns[k];
        match &a.kind {
            AnnotationKind::Link { url, .. } => {
                if !url.as_str().is_empty() {
                    let label = match get_byte_range(t, a.start, a.end) {
                        Some(v) => Some(chars_string(v.as_slice())),
                        None => None,
                    };
                    let uc = str_chars(url.as_str());
                    let uri = UriRef { url: url.clone(), label, kind: link_kind_of(uc.as_slice()) };
                    let ghost uv = uri@;
                    out.push(uri);
                    assert(out@.map_values(|u: UriRef| u@) =~= o0 + seq![uv]);
                } else {
                    assert(o0 + Seq::<UriView>::empty() =~= o0);
                }
            },
            _ => {
                assert(o0 + Seq::<UriView>::empty() =~= o0);
            },
        }
        k = k + 1;
    }
    assert(av.take(anns@.len() as int) =~= av);
    out
}

// ---------------------------------------------------------------------------
// Headings
// ---------------------------------------------------------------------------

/// The level of a sectioning command.
fn heading_level_exec(cmd: &[char], chapters: bool) -> (r: Option<u8>)
    ensures
        r == heading_level(cmd@, chapters),
{
    let shift: u8 = if chapters {
        1
    } else {
        0
    };
    if chapters && (eq_str(cmd, "chapter") || eq_str(cmd, "chapter*")) {
        Some(1)
    } else if eq_str(cmd, "section") || eq_str(cmd, "section*") {
        Some(1 + shift)
    } else if eq_str(cmd, "subsection") || eq_str(cmd, "subsection*") {
        Some(2 + shift)
    } else if eq_str(cmd, "subsubsection") || eq_str(cmd, "subsubsection*") {
        Some(3 + shift)
    } else if eq_str(cmd, "paragraph") || eq_str(cmd, "paragraph*") {
        Some(4 + shift)
    } else {
        None
    }
}

/// The level and command name of a heading line.
fn heading_cmd_exec(t: &[char], chapters: bool) -> (r: Option<(u8, Vec<char>)>)
    ensures
        r matches Some((l, n)) ==> heading_cmd(t@, chapters) == Some((l, n@)),
        r is None ==> heading_cmd(t@, chapters) is None,
{
    if t.len() == 0 || t[0] != '\\' {
        return None;
    }
    let after = slice_vec(t, 1, t.len());
    assert(after@ =~= t@.skip(1));
    let mut e: usize = 0;
    while e < after.len() && !(after[e] == '{' || after[e] == '[' || text::is_whitespace(after[e]))
        invariant
            e <= after@.len(),
            name_end(after@, 0) == name_end(after@, e as nat),
        decreases after@.len() - e,
    {
        e = e + 1;
    }
    assert(name_end(after@, e as nat) == e);
    let name = slice_vec(after.as_slice(), 0, e);
    assert(name@ =~= after@.take(e as int));
    match heading_level_exec(name.as_slice(), chapters) {
        None => None,
        Some(level) => {
            let tail = slice_vec(after.as_slice(), e, after.len());
            assert(tail@ =~= after@.skip(e as int));
            let rest = trim_start_vec(tail.as_slice());
            if rest.len() > 0 && (rest[0] == '{' || rest[0] == '[') {
                Some((level, name))
            } else {
                None
            }
        },
    }
}

/// Adds a heading line.
fn push_heading(doc: &mut InternalDocument, t: &[char], level: u8, name: &[char])
    ensures
        final(doc).source_format == old(doc).source_format,
        final(doc)@ == heading_doc(t@, level, name@, old(doc)@),
{
    match extract_heading_title(t, name) {
        None => {},
        Some(title) => {
            let (tt, anns) = LatexExtractor::strip_inline_chars(title.as_slice());
            let uris = hyperlinks_exec(tt.as_slice(), &anns);
            let anchor = label_exec(t);
            let none: Vec<TextAnnotation> = Vec::new();
            assert(anns_view(none@) =~= Seq::<AnnView>::empty());
            push_text_elem(doc, ElementKind::Heading { level }, tt.as_slice(), none, anchor);
            doc.append_uris(uris);
        },
    }
}

// ---------------------------------------------------------------------------
// References, citations and footnotes
// ---------------------------------------------------------------------------

/// Adds a `[key]` paragraph and a relationship of `kind` for each key.
fn push_key_refs(doc: &mut InternalDocument, keys: &Vec<Vec<char>>, kind: RelKind)
    ensures
        final(doc).source_format == old(doc).source_format,
        final(doc)@ == key_refs(text::views(keys@), kind, old(doc)@),
{
    let ghost kv = text::views(keys@);
    let ghost d0 = doc@;
    let mut k: usize = 0;
    assert(kv.take(0) =~= Seq::<Seq<char>>::empty());
    while k < keys.len()
        invariant
            k <= keys@.len(),
            kv == text::views(keys@),
            doc@ == key_refs(kv.take(k as int), kind, d0),
            doc.source_format == old(doc).source_format,
        decreases keys@.len() - k,
    {
        assert(kv.take(k + 1).drop_last() =~= kv.take(k as int));
        assert(kv.take(k + 1).last() == keys@[k as int]@);
        let idx = next_index(doc);
        let mut p: Vec<char> = Vec::new();
        p.push('[');
        push_all(&mut p, keys[k].as_slice());
        p.push(']');
        assert(p@ =~= "["@ + keys@[k as int]@ + "]"@) by {
            reveal_strlit("[");
            reveal_strlit("]");
        }
        doc.push_plain(ElementKind::Paragraph, p.as_slice());
        doc.push_relationship(
            Relationship { source: idx, target: RelTarget::Key(chars_string(keys[k].as_slice())), kind },
        );
        k = k + 1;
    }
    assert(kv.take(keys@.len() as int) =~= kv);
}

/// The non-empty trimmed keys of a comma-separated list.
fn split_keys(key: &[char]) -> (r: Vec<Vec<char>>)
    ensures
        text::views(r@) == nonempty_trimmed(text::split_char(key@, ',')),
{
    let parts = split_char_exec(key, ',');
    let ghost ps = text::views(parts@);
    let mut out: Vec<Vec<char>> = Vec::new();
    let mut j: usize = 0;
    assert(ps.take(0) =~= Seq::<Seq<char>>::empty());
    assert(text::views(out@) =~= Seq::<Seq<char>>::empty());
    while j < parts.len()
        invariant
            j <= parts@.len(),
            ps == text::views(parts@),
            ps == text::split_char(key@, ','),
            text::views(out@) == nonempty_trimmed(ps.take(j as int)),
        decreases parts@.len() - j,
    {
        let cl = trim_vec(parts[j].as_slice());
        proof {
            assert(ps.take(j + 1).drop_last() =~= ps.take(j as int));
            assert(ps.take(j + 1).last() == parts@[j as int]@);
        }
        if cl.len() > 0 {
            let ghost before = text::views(out@);
            let ghost cv = cl@;
            out.push(cl);
            assert(text::views(out@) =~= before.push(cv));
        }
        j = j + 1;
    }
    assert(ps.take(parts@.len() as int) =~= ps);
    out
}

/// Adds the references `prefix{keys}` of `s`.
fn extract_refs(doc: &mut InternalDocument, s: &[char], prefix: &str, kind: RelKind)
    requires
        prefix@.len() > 0,
    ensures
        final(doc).source_format == old(doc).source_format,
        final(doc)@ == refs_in(s@, prefix@, kind, old(doc)@),
{
    let pv = str_chars(prefix);
    let mut cur: Vec<char> = slice_vec(s, 0, s.len());
    assert(cur@ =~= s@);
    loop
        invariant
            pv@ == prefix@,
            prefix@.len() > 0,
            refs_in(s@, prefix@, kind, old(doc)@) == refs_in(cur@, prefix@, kind, doc@),
            doc.source_format == old(doc).source_format,
        decreases cur@.len(),
    {
        let pos = match find_str(cur.as_slice(), prefix) {
            None => return,
            Some(p) => p,
        };
        proof {
            text::lemma_find_from(cur@, prefix@, 0);
        }
        let pl = pv.len();
        assert(pos + pl <= cur.len());
        let a = pos + pl;
        let after = slice_vec(cur.as_slice(), a, cur.len());
        assert(after@ =~= cur@.skip(pos + prefix@.len() as int));
        proof {
            lemma_read_braced_content(after@);
        }
        match read_braced_chars(after.as_slice()) {
            None => return,
            Some((key, n)) => {
                let keys = split_keys(key.as_slice());
                push_key_refs(doc, &keys, kind);
                let next = a + n;
                let rest = slice_vec(cur.as_slice(), next, cur.len());
                assert(rest@ =~= cur@.skip(next as int));
                cur = rest;
            },
        }
    }
}

/// Adds the footnotes of `s` and returns `s` without them.
fn push_footnotes(doc: &mut InternalDocument, s: &[char]) -> (r: Vec<char>)
    ensures
        final(doc).source_format == old(doc).source_format,
        (final(doc)@, r@) == footnotes(s@, old(doc)@),
{
    let mut cur: Vec<char> = slice_vec(s, 0, s.len());
    assert(cur@ =~= s@);
    let pv = str_chars("\\footnote{");
    loop
        invariant
            pv@ == "\\footnote{"@,
            footnotes(s@, old(doc)@) == footnotes(cur@, doc@),
            doc.source_format == old(doc).source_format,
        decreases cur@.len(),
    {
        let fs = match text::find_exec(cur.as_slice(), pv.as_slice()) {
            None => return cur,
            Some(p) => p,
        };
        proof {
            text::lemma_find_from(cur@, pv@, 0);
        }
        let pl = pv.len();
        assert(fs + pl <= cur.len());
        let a = fs + pl;
        let after = slice_vec(cur.as_slice(), a, cur.len());
        assert(after@ =~= cur@.skip(fs + pv@.len() as int));
        proof {
            lemma_read_braced_content(after@);
        }
        match read_braced_chars(after.as_slice()) {
            None => return cur,
            Some((ft, n)) => {
                let c = clean_text(ft.as_slice());
                if c.len() > 0 {
                    let mut key: Vec<char> = Vec::new();
                    push_str(&mut key, "fn:");
                    if c.len() <= 20 {
                        push_all(&mut key, c.as_slice());
                    } else {
                        let head = slice_vec(c.as_slice(), 0, 20);
                        push_all(&mut key, head.as_slice());
                    }
                    assert(key@ =~= footnote_key(c@));
                    push_with_label(doc, ElementKind::FootnoteRef, c.as_slice(), key.as_slice());
                    push_with_label(doc, ElementKind::FootnoteDefinition, c.as_slice(), key.as_slice());
                }
                let end = a + n;
                let mut rest = slice_vec(cur.as_slice(), 0, fs);
                let tail = slice_vec(cur.as_slice(), end, cur.len());
                push_all(&mut rest, tail.as_slice());
                assert(rest@ =~= cur@.take(fs as int) + cur@.skip(end as int));
                cur = rest;
            },
        }
    }
}

/// Adds a footnote element of `kind` with its label.
fn push_with_label(doc: &mut InternalDocument, kind: ElementKind, t: &[char], label: &[char])
    ensures
        final(doc).source_format == old(doc).source_format,
        final(doc)@ == add_elem(old(doc)@, footnote_elem(kind, t@, label@)),
{
    let mut attrs: Vec<(String, String)> = Vec::new();
    let a = (String::from_str("label"), chars_string(label));
    let ghost av = (a.0@, a.1@);
    attrs.push(a);
    let e = InternalElement {
        kind,
        text: chars_string(t),
        annotations: Vec::new(),
        attributes: attrs,
        cells: Vec::new(),
        anchor: None,
    };
    assert(e@.anns =~= Seq::<AnnView>::empty());
    assert(e@.attrs =~= seq![av]);
    assert(e@.cells =~= Seq::<Seq<Seq<char>>>::empty());
    doc.push_element(e);
}

/// Adds what is left of a line as a paragraph.
fn push_paragraph(doc: &mut InternalDocument, lt: &[char])
    ensures
        final(doc).source_format == old(doc).source_format,
        final(doc)@ == paragraph_doc(lt@, old(doc)@),
{
    if lt.len() == 0 {
        return;
    }
    let (s, anns) = LatexExtractor::strip_inline_chars(lt);
    let tx = trim_vec(s.as_slice());
    if tx.len() == 0 {
        return;
    }
    let uris = hyperlinks_exec(tx.as_slice(), &anns);
    doc.append_uris(uris);
    let anchor = label_exec(lt);
    push_text_elem(doc, ElementKind::Paragraph, tx.as_slice(), anns, anchor);
}


// ---------------------------------------------------------------------------
// Content lines
// ---------------------------------------------------------------------------

/// Display math opened on line `i` by `t` and left open: its body over the lines
/// up to the one holding `\]`, and that line.
fn math_collect_exec(ls: &Vec<Vec<char>>, i: usize, t: &[char]) -> (r: (Vec<char>, usize))
    requires
        i < ls@.len(),
    ensures
        math_collect(text::views(ls@), (i + 1) as nat, t@) == (r.0@, r.1 as nat),
{
    let ghost lv = text::views(ls@);
    let mut m: Vec<char> = Vec::new();
    push_all(&mut m, t);
    let n = ls.len();
    assert(i < n);
    let mut j = i + 1;
    assert(m@ =~= t@);
    while j < ls.len()
        invariant
            i < j <= ls@.len(),
            lv == text::views(ls@),
            math_collect(lv, (i + 1) as nat, t@) == math_collect(lv, j as nat, m@),
        decreases ls@.len() - j,
    {
        let ghost old_m = m@;
        m.push('\n');
        push_all(&mut m, ls[j].as_slice());
        let lt = trim_vec(ls[j].as_slice());
        assert(m@ =~= old_m + "\n"@ + lv[j as int]) by {
            reveal_strlit("\n");
        }
        if contains_str(lt.as_slice(), "\\]") {
            return (m, j);
        }
        j = j + 1;
    }
    (m, j)
}

/// Adds content line `t`, line `i` trimmed; returns the last line it reads.
fn process_content_line(
    doc: &mut InternalDocument,
    ls: &Vec<Vec<char>>,
    i: usize,
    t: &[char],
    chapters: bool,
    inject: bool,
) -> (r: usize)
    requires
        i < ls@.len(),
    ensures
        final(doc).source_format == old(doc).source_format,
        final(doc)@ == content_line(text::views(ls@), i as nat, t@, chapters, inject, old(doc)@),
        r == content_end(text::views(ls@), i as nat, t@, chapters),
{
    let ts = chars_string(t);
    if t.len() == 0 || t[0] == '%' || LatexExtractor::is_skip_command(ts.as_str()) {
        return i;
    }
    assert(!silent_line(t@));
    match heading_cmd_exec(t, chapters) {
        Some((level, name)) => {
            push_heading(doc, t, level, name.as_slice());
            return i;
        },
        None => {},
    }
    if contains_str(t, "\\includegraphics") {
        match LatexExtractor::extract_includegraphics_path(ts.as_str()) {
            Some(p) => {
                assert(image_line(t@));
                let pc = str_chars(p.as_str());
                doc.push_uri(UriRef { url: p, label: None, kind: UriKind::Image });
                if inject {
                    let mut ph: Vec<char> = Vec::new();
                    push_str(&mut ph, "[image: ");
                    push_all(&mut ph, pc.as_slice());
                    push_str(&mut ph, "]");
                    assert(ph@ =~= image_placeholder(pc@));
                    doc.push_plain(ElementKind::Paragraph, ph.as_slice());
                }
                return i;
            },
            None => {},
        }
    }
    assert(!image_line(t@));
    proof {
        reveal_strlit("\\ref{");
        reveal_strlit("\\cite{");
    }
    extract_refs(doc, t, "\\ref{", RelKind::CrossReference);
    extract_refs(doc, t, "\\cite{", RelKind::CitationReference);
    if starts_with_str(t, "\\[") {
        let (m, j) = if contains_str(t, "\\]") {
            (slice_vec(t, 0, t.len()), i)
        } else {
            math_collect_exec(ls, i, t)
        };
        assert(!text::contains(t@, "\\]"@) || m@ =~= t@);
        let open = str_chars("\\[");
        let close = str_chars("\\]");
        let a = trim_start_matches_exec(m.as_slice(), open.as_slice());
        let b = trim_end_matches_exec(a.as_slice(), close.as_slice());
        let f = trim_vec(b.as_slice());
        assert(f@ == display_math(text::views(ls@), i as nat, t@));
        if f.len() > 0 {
            doc.push_plain(ElementKind::Formula, f.as_slice());
        }
        return j;
    }
    let rest = push_footnotes(doc, t);
    let lt = trim_vec(rest.as_slice());
    push_paragraph(doc, lt.as_slice());
    i
}


// ---------------------------------------------------------------------------
// Lists
// ---------------------------------------------------------------------------

/// An item's first line.
fn item_first_exec(after: &[char]) -> (r: Vec<char>)
    ensures
        r@ == item_first(after@),
{
    if after.len() > 0 && after[0] == '[' {
        match text::find_char_exec(after, ']') {
            Some(be) => {
                proof {
                    text::lemma_find_char_some(after@, ']');
                }
                assert(be >= 1);
                let mut out = slice_vec(after, 1, be);
                let tail = slice_vec(after, be + 1, after.len());
                assert(tail@ =~= after@.skip(be + 1int));
                let rest = trim_vec(tail.as_slice());
                let ghost label = out@;
                if rest.len() == 0 {
                    push_str(&mut out, ":");
                } else {
                    push_str(&mut out, ": ");
                    push_all(&mut out, rest.as_slice());
                }
                return out;
            },
            None => {},
        }
    }
    slice_vec(after, 0, after.len())
}

/// An item's continuation lines from `k0`, and the line where they stop.
fn item_parts_exec(ls: &Vec<Vec<char>>, k0: usize, parts0: Vec<Vec<char>>) -> (r: (Vec<Vec<char>>, usize))
    requires
        k0 <= ls@.len(),
    ensures
        item_parts(text::views(ls@), k0 as nat, text::views(parts0@)) == (text::views(r.0@), r.1 as nat),
{
    let ghost lv = text::views(ls@);
    let mut parts = parts0;
    let mut k = k0;
    while k < ls.len()
        invariant
            k0 <= k <= ls@.len(),
            lv == text::views(ls@),
            item_parts(lv, k0 as nat, text::views(parts0@)) == item_parts(lv, k as nat, text::views(parts@)),
        decreases ls@.len() - k,
    {
        let t = trim_vec(ls[k].as_slice());
        assert(t@ == text::trim(lv[k as int]));
        if t.len() == 0 || starts_with_str(t.as_slice(), "\\item") || starts_with_str(t.as_slice(), "\\begin{")
            || starts_with_str(t.as_slice(), "\\end{") || starts_with_str(t.as_slice(), "\\setcounter") {
            return (parts, k);
        }
        let ghost before = text::views(parts@);
        let ghost tv = t@;
        parts.push(t);
        assert(text::views(parts@) =~= before.push(tv));
        k = k + 1;
    }
    (parts, k)
}

/// Adds a list item of `text` when it is not empty once stripped.
fn push_item(doc: &mut InternalDocument, text: &[char], ordered: bool)
    ensures
        final(doc).source_format == old(doc).source_format,
        final(doc)@ == item_doc(text@, ordered, old(doc)@),
{
    if text.len() == 0 {
        return;
    }
    let (s, anns) = LatexExtractor::strip_inline_chars(text);
    let st = trim_vec(s.as_slice());
    if st.len() == 0 {
        return;
    }
    push_text_elem(doc, ElementKind::ListItem { ordered }, st.as_slice(), anns, None);
}

/// Adds the items of a list body, nested lists included.
fn build_internal_list_items(doc: &mut InternalDocument, ls: &Vec<Vec<char>>, ordered: bool)
    ensures
        final(doc).source_format == old(doc).source_format,
        final(doc)@ == list_from(text::views(ls@), 0, ordered, old(doc)@),
    decreases weight(text::views(ls@)),
{
    let ghost lv = text::views(ls@);
    let ghost d0 = doc@;
    let none: Vec<char> = Vec::new();
    let mut i: usize = 0;
    proof {
        lemma_rest_weight_zero(lv);
    }
    while i < ls.len()
        invariant
            i <= ls@.len(),
            lv == text::views(ls@),
            none@.len() == 0,
            rest_weight(lv, i as nat) <= weight(lv),
            list_from(lv, 0, ordered, d0) == list_from(lv, i as nat, ordered, doc@),
            doc.source_format == old(doc).source_format,
        decreases ls@.len() - i,
    {
        let t = trim_vec(ls[i].as_slice());
        assert(t@ == text::trim(lv[i as int]));
        if contains_str(t.as_slice(), "\\begin{itemize}") || contains_str(t.as_slice(), "\\begin{enumerate}")
            || contains_str(t.as_slice(), "\\begin{description}") {
            assert(opens_list(t@));
            match extract_env_name(t.as_slice()) {
                Some(e) => {
                    let no = eq_str(e.as_slice(), "enumerate");
                    let (c, j) = collect_environment(ls.as_slice(), i, e.as_slice());
                    proof {
                        lemma_collect_lighter(lv, i as nat, e@);
                        lemma_rest_weight_mono(lv, i as nat, j as nat);
                    }
                    let inner = lines_exec(c.as_slice());
                    assert(none@ =~= Seq::<char>::empty());
                    doc.push_plain(ElementKind::ListStart { ordered: no }, none.as_slice());
                    build_internal_list_items(doc, &inner, no);
                    doc.push_plain(ElementKind::ListEnd, none.as_slice());
                    i = j;
                    continue;
                },
                None => {},
            }
        }
        if starts_with_str(t.as_slice(), "\\item") {
            proof {
                reveal_strlit("\\item");
            }
            assert(t@.len() >= 5);
            let tail = slice_vec(t.as_slice(), 5, t.len());
            assert(tail@ =~= t@.skip(5));
            let after = trim_vec(tail.as_slice());
            let first = item_first_exec(after.as_slice());
            let mut parts0: Vec<Vec<char>> = Vec::new();
            let ghost fv = first@;
            if first.len() > 0 {
                parts0.push(first);
                assert(text::views(parts0@) =~= seq![fv]);
            } else {
                assert(text::views(parts0@) =~= Seq::<Seq<char>>::empty());
            }
            let (parts, j) = item_parts_exec(ls, i + 1, parts0);
            proof {
                lemma_item_parts(lv, (i + 1) as nat, text::views(parts0@));
                lemma_rest_weight_mono(lv, i as nat, j as nat);
            }
            let joined = join_with_spaces(&parts);
            push_item(doc, joined.as_slice(), ordered);
            i = j;
            continue;
        }
        proof {
            lemma_rest_weight_mono(lv, i as nat, (i + 1) as nat);
        }
        i = i + 1;
    }
}


// ---------------------------------------------------------------------------
// Environments
// ---------------------------------------------------------------------------

/// Adds a table of `cells` with an anchor.
fn push_table(doc: &mut InternalDocument, cells: Vec<Vec<String>>, anchor: Option<String>)
    ensures
        final(doc).source_format == old(doc).source_format,
        final(doc)@ == add_elem(old(doc)@, anchored(table_elem(rows_view(cells@)), opt_str(anchor))),
{
    let e = InternalElement {
        kind: ElementKind::Table,
        text: String::new(),
        annotations: Vec::new(),
        attributes: Vec::new(),
        cells,
        anchor,
    };
    assert(e@.text =~= Seq::<char>::empty());
    assert(e@.anns =~= Seq::<AnnView>::empty());
    assert(e@.attrs =~= Seq::<(Seq<char>, Seq<char>)>::empty());
    doc.push_element(e);
}

/// Adds a caption paragraph linked to the element at `idx`.
fn push_caption(doc: &mut InternalDocument, caption: Option<String>, idx: u32)
    ensures
        final(doc).source_format == old(doc).source_format,
        final(doc)@ == caption_doc(opt_str(caption), idx, old(doc)@),
{
    match caption {
        None => {},
        Some(cap) => {
            let src = next_index(doc);
            let cc = str_chars(cap.as_str());
            doc.push_plain(ElementKind::Paragraph, cc.as_slice());
            doc.push_relationship(Relationship { source: src, target: RelTarget::Index(idx), kind: RelKind::Caption });
        },
    }
}

/// The rows of a table body's tabular.
fn table_body_cells_exec(c: &[char]) -> (r: Vec<Vec<String>>)
    ensures
        rows_view(r@) == table_body_cells(c@),
{
    let none: Vec<Vec<String>> = Vec::new();
    assert(rows_view(none@) =~= Seq::<Seq<Seq<char>>>::empty());
    match (find_str(c, "\\begin{tabular}"), find_str(c, "\\end{tabular}")) {
        (Some(s0), Some(e0)) => {
            let endpat = str_chars("\\end{tabular}");
            proof {
                text::lemma_find_from(c@, endpat@, 0);
            }
            let el = endpat.len();
            assert(e0 + el <= c.len());
            if s0 > e0 + el {
                return none;
            }
            let tab = slice_vec(c, s0, e0 + el);
            let il = lines_exec(tab.as_slice());
            if il.len() == 0 {
                return none;
            }
            let env = str_chars("tabular");
            let (inner, _j) = collect_environment(il.as_slice(), 0, env.as_slice());
            let is = chars_string(inner.as_slice());
            LatexExtractor::parse_tabular_cells(is.as_str())
        },
        _ => none,
    }
}

/// Adds a table environment.
fn push_table_env(doc: &mut InternalDocument, c: &[char])
    ensures
        final(doc).source_format == old(doc).source_format,
        final(doc)@ == table_env(c@, old(doc)@),
{
    let cells = table_body_cells_exec(c);
    if cells.len() == 0 {
        return;
    }
    let cs = chars_string(c);
    let caption = LatexExtractor::extract_caption(cs.as_str());
    let anchor = label_exec(c);
    let idx = next_index(doc);
    push_table(doc, cells, anchor);
    push_caption(doc, caption, idx);
}

/// Adds a figure environment.
fn push_figure(doc: &mut InternalDocument, c: &[char], inject: bool)
    ensures
        final(doc).source_format == old(doc).source_format,
        final(doc)@ == figure_env(c@, inject, old(doc)@),
{
    let cs = chars_string(c);
    let caption = LatexExtractor::extract_caption(cs.as_str());
    match LatexExtractor::extract_includegraphics_path(cs.as_str()) {
        None => {},
        Some(p) => {
            let pc = str_chars(p.as_str());
            let label = match &caption {
                Some(x) => Some(x.clone()),
                None => None,
            };
            doc.push_uri(UriRef { url: p, label, kind: UriKind::Image });
            if inject {
                let idx = next_index(doc);
                let mut ph: Vec<char> = Vec::new();
                push_str(&mut ph, "[image: ");
                push_all(&mut ph, pc.as_slice());
                push_str(&mut ph, "]");
                assert(ph@ =~= image_placeholder(pc@));
                let anchor = label_exec(c);
                let none: Vec<TextAnnotation> = Vec::new();
                assert(anns_view(none@) =~= Seq::<AnnView>::empty());
                push_text_elem(doc, ElementKind::Paragraph, ph.as_slice(), none, anchor);
                push_caption(doc, caption, idx);
            }
        },
    }
}

/// Adds each non-empty line as a paragraph of its own.
fn push_obey_lines(doc: &mut InternalDocument, ls: &Vec<Vec<char>>)
    ensures
        final(doc).source_format == old(doc).source_format,
        final(doc)@ == obey_lines(text::views(ls@), old(doc)@),
{
    let ghost lv = text::views(ls@);
    let ghost d0 = doc@;
    let mut k: usize = 0;
    assert(lv.take(0) =~= Seq::<Seq<char>>::empty());
    while k < ls.len()
        invariant
            k <= ls@.len(),
            lv == text::views(ls@),
            doc@ == obey_lines(lv.take(k as int), d0),
            doc.source_format == old(doc).source_format,
        decreases ls@.len() - k,
    {
        assert(lv.take(k + 1).drop_last() =~= lv.take(k as int));
        assert(lv.take(k + 1).last() == ls@[k as int]@);
        let lt = trim_vec(ls[k].as_slice());
        if lt.len() > 0 {
            let (s, anns) = LatexExtractor::strip_inline_chars(lt.as_slice());
            if s.len() > 0 {
                push_text_elem(doc, ElementKind::Paragraph, s.as_slice(), anns, None);
            }
        }
        k = k + 1;
    }
    assert(lv.take(ls@.len() as int) =~= lv);
}

/// Whether `e` is a math environment.
fn is_math_env_exec(e: &[char]) -> (r: bool)
    ensures
        r == is_math_env(e@),
{
    eq_str(e, "equation") || eq_str(e, "equation*") || eq_str(e, "align") || eq_str(e, "align*") || eq_str(
        e,
        "gather",
    ) || eq_str(e, "gather*") || eq_str(e, "multline") || eq_str(e, "multline*") || eq_str(e, "eqnarray")
        || eq_str(e, "eqnarray*") || eq_str(e, "math") || eq_str(e, "displaymath") || eq_str(e, "flalign")
        || eq_str(e, "flalign*") || eq_str(e, "cases")
}

/// Adds a math environment as a formula.
fn push_math_env(doc: &mut InternalDocument, e: &[char], c: &[char], top: bool)
    ensures
        final(doc).source_format == old(doc).source_format,
        final(doc)@ == add_elem(old(doc)@, math_elem(e@, c@, top)),
{
    let mut f: Vec<char> = Vec::new();
    push_str(&mut f, "\\begin{");
    push_all(&mut f, e);
    push_str(&mut f, "}\n");
    push_all(&mut f, c);
    push_str(&mut f, "\\end{");
    push_all(&mut f, e);
    push_str(&mut f, "}");
    let anchor = if top {
        label_exec(c)
    } else {
        None
    };
    let none: Vec<TextAnnotation> = Vec::new();
    assert(anns_view(none@) =~= Seq::<AnnView>::empty());
    push_text_elem(doc, ElementKind::Formula, f.as_slice(), none, anchor);
}

/// Adds a code block with its language when given.
fn push_code(doc: &mut InternalDocument, t: &[char], language: Option<String>)
    ensures
        final(doc).source_format == old(doc).source_format,
        final(doc)@ == add_elem(old(doc)@, code_elem(t@, opt_str(language))),
{
    let mut attrs: Vec<(String, String)> = Vec::new();
    match language {
        Some(l) => {
            let a = (String::from_str("language"), l);
            let ghost av = (a.0@, a.1@);
            attrs.push(a);
            assert(pairs_view(attrs@) =~= seq![av]);
        },
        None => {
            assert(pairs_view(attrs@) =~= Seq::<(Seq<char>, Seq<char>)>::empty());
        },
    }
    let e = InternalElement {
        kind: ElementKind::Code,
        text: chars_string(t),
        annotations: Vec::new(),
        attributes: attrs,
        cells: Vec::new(),
        anchor: None,
    };
    assert(e@.anns =~= Seq::<AnnView>::empty());
    assert(e@.cells =~= Seq::<Seq<Seq<char>>>::empty());
    doc.push_element(e);
}

/// The environment a line opens, if any.
fn env_at_exec(t: &[char]) -> (r: Option<Vec<char>>)
    ensures
        r matches Some(e) ==> env_at(t@) == Some(e@),
        r is None ==> env_at(t@) is None,
{
    if contains_str(t, "\\begin{") || contains_str(t, "\\begin {") {
        extract_env_name(t)
    } else {
        None
    }
}

// ---------------------------------------------------------------------------
// Lines and bodies
// ---------------------------------------------------------------------------

/// Adds what line `i` holds; returns the line after what it uses, or the number
/// of lines when that is past the end.
fn push_step(doc: &mut InternalDocument, ls: &Vec<Vec<char>>, i: usize, top: bool, chapters: bool, inject: bool) -> (r: usize)
    requires
        i < ls@.len(),
    ensures
        final(doc).source_format == old(doc).source_format,
        final(doc)@ == step(text::views(ls@), i as nat, top, chapters, inject, old(doc)@),
        r == if step_next(text::views(ls@), i as nat, chapters) <= ls@.len() {
            step_next(text::views(ls@), i as nat, chapters)
        } else {
            ls@.len()
        },
    decreases rest_weight(text::views(ls@), i as nat), 0nat,
{
    let ghost lv = text::views(ls@);
    let t = trim_vec(ls[i].as_slice());
    assert(t@ == text::trim(lv[i as int]));
    proof {
        lemma_step_next(lv, i as nat, chapters);
    }
    match env_at_exec(t.as_slice()) {
        Some(e) => {
            let es = e.as_slice();
            let (c, j) = collect_environment(ls.as_slice(), i, es);
            proof {
                lemma_collect_lighter(lv, i as nat, e@);
            }
            let inner = lines_exec(c.as_slice());
            proof {
                lemma_rest_weight_zero(text::views(inner@));
            }
            let none: Vec<char> = Vec::new();
            assert(none@ =~= Seq::<char>::empty());
            if eq_str(es, "itemize") || eq_str(es, "enumerate") || eq_str(es, "description") {
                let o = eq_str(es, "enumerate");
                doc.push_plain(ElementKind::ListStart { ordered: o }, none.as_slice());
                build_internal_list_items(doc, &inner, o);
                doc.push_plain(ElementKind::ListEnd, none.as_slice());
            } else if eq_str(es, "tabular") {
                let cs = chars_string(c.as_slice());
                let cells = LatexExtractor::parse_tabular_cells(cs.as_str());
                if cells.len() > 0 {
                    push_table(doc, cells, None);
                }
            } else if top && eq_str(es, "table") {
                push_table_env(doc, c.as_slice());
            } else if top && eq_str(es, "figure") {
                push_figure(doc, c.as_slice(), inject);
            } else if is_math_env_exec(es) {
                push_math_env(doc, es, c.as_slice(), top);
            } else if eq_str(es, "lstlisting") || eq_str(es, "verbatim") || eq_str(es, "minted") || eq_str(
                es,
                "Verbatim",
            ) {
                let language = if eq_str(es, "lstlisting") || eq_str(es, "minted") {
                    let ts = chars_string(t.as_slice());
                    LatexExtractor::extract_code_language(ts.as_str())
                } else {
                    None
                };
                let body = trim_vec(c.as_slice());
                push_code(doc, body.as_slice(), language);
            } else if eq_str(es, "quote") || eq_str(es, "quotation") {
                doc.push_plain(ElementKind::QuoteStart, none.as_slice());
                build_internal_body(doc, &inner, false, chapters, inject);
                doc.push_plain(ElementKind::QuoteEnd, none.as_slice());
            } else if top && eq_str(es, "obeylines") {
                push_obey_lines(doc, &inner);
            } else if eq_str(es, "center") && {
                let ct = trim_vec(c.as_slice());
                starts_with_str(ct.as_slice(), "\\rule{") || starts_with_str(ct.as_slice(), "\\rule ")
            } {
                let rule = str_chars("---");
                doc.push_plain(ElementKind::Paragraph, rule.as_slice());
            } else {
                build_internal_body(doc, &inner, false, chapters, inject);
            }
            j
        },
        None => {
            let k = process_content_line(doc, ls, i, t.as_slice(), chapters, inject);
            if k < ls.len() {
                k + 1
            } else {
                ls.len()
            }
        },
    }
}

/// Adds the lines of an environment's body (`top` false) or of the document.
fn build_internal_body(doc: &mut InternalDocument, ls: &Vec<Vec<char>>, top: bool, chapters: bool, inject: bool)
    ensures
        final(doc).source_format == old(doc).source_format,
        final(doc)@ == body_from(text::views(ls@), 0, top, chapters, inject, old(doc)@),
    decreases weight(text::views(ls@)), 1nat,
{
    let ghost lv = text::views(ls@);
    let ghost d0 = doc@;
    let mut i: usize = 0;
    proof {
        lemma_rest_weight_zero(lv);
    }
    while i < ls.len()
        invariant
            i <= ls@.len(),
            lv == text::views(ls@),
            rest_weight(lv, i as nat) <= weight(lv),
            body_from(lv, 0, top, chapters, inject, d0) == body_from(lv, i as nat, top, chapters, inject, doc@),
            doc.source_format == old(doc).source_format,
        decreases ls@.len() - i,
    {
        proof {
            lemma_step_next(lv, i as nat, chapters);
            lemma_rest_weight_mono(lv, i as nat, step_next(lv, i as nat, chapters));
        }
        let ghost db = doc@;
        let j = push_step(doc, ls, i, top, chapters, inject);
        proof {
            lemma_rest_weight_mono(lv, i as nat, j as nat);
            let sn = step_next(lv, i as nat, chapters);
            assert(body_from(lv, i as nat, top, chapters, inject, db) == body_from(lv, sn, top, chapters, inject, doc@));
            if sn > lv.len() {
                assert(body_from(lv, sn, top, chapters, inject, doc@) == doc@);
                assert(body_from(lv, j as nat, top, chapters, inject, doc@) == doc@);
            }
        }
        i = j;
    }
}


// ---------------------------------------------------------------------------
// The document
// ---------------------------------------------------------------------------

/// Adds the entry `(cmd, value)` for `\cmd{value}` with a non-empty value.
fn push_meta_entry(entries: &mut Vec<(String, String)>, src: &[char], cmd: &str)
    ensures
        pairs_view(final(entries)@) == pairs_view(old(entries)@) + meta_entry(src@, cmd@),
{
    let c = str_chars(cmd);
    let ghost before = pairs_view(entries@);
    match extract_braced(src, c.as_slice()) {
        Some(v) => {
            if v.len() > 0 {
                let e = (String::from_str(cmd), chars_string(v.as_slice()));
                let ghost ev = (e.0@, e.1@);
                entries.push(e);
                assert(pairs_view(entries@) =~= before + seq![ev]);
                return;
            }
        },
        None => {},
    }
    assert(pairs_view(entries@) =~= before + Seq::<(Seq<char>, Seq<char>)>::empty());
}

impl LatexExtractor {
    /// The structured document of a LaTeX source. Labels become anchors, `\ref`
    /// and `\cite` relationships, captions relationships to what they caption;
    /// with `inject_placeholders` images also leave an `[image: path]` paragraph.
    pub fn build_internal_document(source: &str, inject_placeholders: bool) -> (r: InternalDocument)
        ensures
            r@ == spec_latex_document(source@, inject_placeholders),
            r.source_format@ == "latex"@,
    {
        let src = str_chars(source);
        let ss = src.as_slice();
        let lines = lines_exec(ss);
        let ghost lv = text::views(lines@);
        let plain_tex = contains_str(ss, "\\bye") && !contains_str(ss, "\\begin{document}");
        let chapters = contains_str(ss, "\\chapter{") || contains_str(ss, "\\chapter*{");
        let mut doc = InternalDocument::new("latex");
        let mut entries: Vec<(String, String)> = Vec::new();
        assert(pairs_view(entries@) =~= Seq::<(Seq<char>, Seq<char>)>::empty());
        push_meta_entry(&mut entries, ss, "title");
        push_meta_entry(&mut entries, ss, "author");
        push_meta_entry(&mut entries, ss, "date");
        assert(pairs_view(entries@) =~= meta_entries(source@));
        if entries.len() > 0 {
            let e = InternalElement {
                kind: ElementKind::MetadataBlock,
                text: String::new(),
                annotations: Vec::new(),
                attributes: entries,
                cells: Vec::new(),
                anchor: None,
            };
            assert(e@.text =~= Seq::<char>::empty());
            assert(e@.anns =~= Seq::<AnnView>::empty());
            assert(e@.cells =~= Seq::<Seq<Seq<char>>>::empty());
            doc.push_element(e);
        }
        let ghost d0 = doc@;
        let mut in_doc = plain_tex;
        let mut i: usize = 0;
        while i < lines.len()
            invariant_except_break
                doc_from(lv, 0, plain_tex, plain_tex, chapters, inject_placeholders, d0) == doc_from(
                    lv,
                    i as nat,
                    in_doc,
                    plain_tex,
                    chapters,
                    inject_placeholders,
                    doc@,
                ),
            invariant
                i <= lines@.len(),
                lv == text::views(lines@),
                doc.source_format@ == "latex"@,
            ensures
                doc_from(lv, 0, plain_tex, plain_tex, chapters, inject_placeholders, d0) == doc@,
            decreases lines@.len() - i,
        {
            let t = trim_vec(lines[i].as_slice());
            assert(t@ == text::trim(lv[i as int]));
            if plain_tex && contains_str(t.as_slice(), "\\bye") {
                break;
            }
            if !plain_tex && contains_str(t.as_slice(), "\\begin{document}") {
                in_doc = true;
                i = i + 1;
                continue;
            }
            if !plain_tex && contains_str(t.as_slice(), "\\end{document}") {
                break;
            }
            if !in_doc {
                i = i + 1;
                continue;
            }
            let ghost db = doc@;
            proof {
                lemma_step_next(lv, i as nat, chapters);
            }
            let j = push_step(&mut doc, &lines, i, true, chapters, inject_placeholders);
            proof {
                let sn = step_next(lv, i as nat, chapters);
                assert(doc_from(lv, i as nat, in_doc, plain_tex, chapters, inject_placeholders, db) == doc_from(
                    lv,
                    sn,
                    in_doc,
                    plain_tex,
                    chapters,
                    inject_placeholders,
                    doc@,
                ));
                if sn > lv.len() {
                    assert(doc_from(lv, sn, in_doc, plain_tex, chapters, inject_placeholders, doc@) == doc@);
                    assert(doc_from(lv, j as nat, in_doc, plain_tex, chapters, inject_placeholders, doc@)
                        == doc@);
                }
            }
            i = j;
        }
        doc
    }
}

} // verus!
