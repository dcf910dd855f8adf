//! The structured LaTeX builder: headings, lists, tables with captions, figures,
//! math, code and quote environments, references, citations, footnotes and
//! paragraphs with inline markup, as an `InternalDocument`.

use vstd::prelude::*;
use crate::text;
use crate::text::join_spaces;
use crate::types::{AnnView, KindView};
use crate::document::{
    add_elem, add_rels, add_uri, add_uris, byte_slice, link_kind, code_elem, empty_doc, footnote_elem, index_u32,
    meta_elem, plain, table_elem, DocView, ElemView, ElementKind, RelKind, RelView, TargetView, UriKind, UriView,
};
use super::environments::{is_list_env, tabular_in_order, tabular_part};
use super::helpers::{
    nonempty_trimmed, spec_braced_after, spec_code_language, spec_includegraphics_path, spec_is_skip_command,
    tabular_cells,
};
use super::inline::{spec_read_braced_content, spec_strip};
use super::parser::{is_math_env, math_collect, trim_end_matches, trim_start_matches};
use super::utilities::{
    collect_from, spec_clean_text, spec_collect_environment, spec_extract_braced, spec_extract_env_name,
    spec_extract_heading_title,
};

verus! {

// ---------------------------------------------------------------------------
// The size of what is left to read
// ---------------------------------------------------------------------------

/// The characters of `ls` with one line break per line: what an environment
/// body cut from them can hold at most.
pub open spec fn weight(ls: Seq<Seq<char>>) -> nat
    decreases ls.len(),
{
    if ls.len() == 0 {
        0
    } else {
        ls[0].len() + 1 + weight(ls.drop_first())
    }
}

/// The weight of the lines from `i` on.
pub open spec fn rest_weight(ls: Seq<Seq<char>>, i: nat) -> nat {
    if i >= ls.len() {
        0
    } else {
        weight(ls.skip(i as int))
    }
}

/// Reading line `i` leaves the weight of the lines after it.
pub proof fn lemma_rest_weight_step(ls: Seq<Seq<char>>, i: nat)
    requires
        i < ls.len(),
    ensures
        rest_weight(ls, i) == ls[i as int].len() + 1 + rest_weight(ls, i + 1),
{
    let s = ls.skip(i as int);
    assert(s[0] == ls[i as int]);
    assert(s.drop_first() =~= ls.skip(i + 1int));
    assert(weight(s) == s[0].len() + 1 + weight(s.drop_first()));
    if i + 1 >= ls.len() {
        assert(s.drop_first().len() == 0);
        assert(weight(s.drop_first()) == 0);
    }
}

/// The weight of what is left shrinks as reading moves on.
pub proof fn lemma_rest_weight_mono(ls: Seq<Seq<char>>, i: nat, j: nat)
    requires
        i <= j,
    ensures
        rest_weight(ls, j) <= rest_weight(ls, i),
        i < j && i < ls.len() ==> rest_weight(ls, j) < rest_weight(ls, i),
    decreases j - i,
{
    if i < j && i < ls.len() {
        lemma_rest_weight_step(ls, i);
        lemma_rest_weight_mono(ls, i + 1, j);
    }
}

/// The lines of `s` weigh at most one more than `s`, and no more than `s` when `s`
/// ends with a line break.
pub proof fn lemma_weight_lines(s: Seq<char>)
    ensures
        weight(text::lines(s)) <= s.len() + 1,
        s.len() > 0 && s.last() == '\n' ==> weight(text::lines(s)) <= s.len(),
    decreases s.len(),
{
    if s.len() > 0 {
        match text::find_char(s, '\n') {
            None => {
                text::lemma_find_from(s, seq!['\n'], 0);
                if s.last() == '\n' {
                    assert(text::matches_at(s, s.len() - 1, seq!['\n']));
                }
                assert(text::lines(s) == seq![s]);
                assert(seq![s].drop_first() =~= Seq::<Seq<char>>::empty());
                assert(weight(seq![s]) == s.len() + 1 + weight(seq![s].drop_first()));
            },
            Some(k) => {
                text::lemma_find_char_some(s, '\n');
                let r = s.skip(k as int + 1);
                lemma_weight_lines(r);
                let l = text::lines(s);
                assert(l == seq![text::strip_cr(s.take(k as int))] + text::lines(r));
                assert(l.drop_first() =~= text::lines(r));
                assert(weight(l) == l[0].len() + 1 + weight(l.drop_first()));
                assert(l[0].len() <= k);
                if s.last() == '\n' && r.len() > 0 {
                    assert(r.last() == s.last());
                }
            },
        }
    }
}

/// Collecting an environment's lines from `i` gathers no more than their weight,
/// keeps every line break at the end, and moves past `i`.
pub proof fn lemma_collect_from(ls: Seq<Seq<char>>, i: nat, depth: int, env: Seq<char>, acc: Seq<char>)
    requires
        i <= ls.len(),
    ensures
        collect_from(ls, i, depth, env, acc).0.len() <= acc.len() + rest_weight(ls, i),
        acc.len() == 0 || acc.last() == '\n' ==> {
            let c = collect_from(ls, i, depth, env, acc).0;
            c.len() == 0 || c.last() == '\n'
        },
        i < ls.len() ==> i < collect_from(ls, i, depth, env, acc).1 <= ls.len(),
        i == ls.len() ==> collect_from(ls, i, depth, env, acc).1 == i,
    decreases ls.len() - i,
{
    if i < ls.len() {
        lemma_rest_weight_step(ls, i);
        let t = text::trim(ls[i as int]);
        let d = depth + text::count_matches(t, "\\begin{"@ + env + "}"@) + text::count_matches(
            t,
            "\\begin {"@ + env + "}"@,
        ) - text::count_matches(t, "\\end{"@ + env + "}"@) - text::count_matches(
            t,
            "\\end {"@ + env + "}"@,
        );
        if d > 0 {
            let acc2 = acc + ls[i as int] + seq!['\n'];
            lemma_collect_from(ls, i + 1, d, env, acc2);
        }
    }
}

/// An environment's body weighs less, once split into lines, than the lines from
/// its `\begin` on.
pub proof fn lemma_collect_lighter(ls: Seq<Seq<char>>, i: nat, env: Seq<char>)
    requires
        i < ls.len(),
    ensures
        weight(text::lines(spec_collect_environment(ls, i, env).0)) < rest_weight(ls, i),
        i < spec_collect_environment(ls, i, env).1 <= ls.len(),
{
    let begin_m = "\\begin{"@ + env + "}"@;
    let end_m = "\\end{"@ + env + "}"@;
    let sl = ls[i as int];
    lemma_rest_weight_step(ls, i);
    let (c, j) = spec_collect_environment(ls, i, env);
    lemma_weight_lines(c);
    match text::find(sl, begin_m) {
        Some(bp) => {
            text::lemma_find_from(sl, begin_m, 0);
            let after = sl.skip(bp as int + begin_m.len() as int);
            match text::find(after, end_m) {
                Some(ep) => {
                    text::lemma_find_from(after, end_m, 0);
                    assert(c.len() <= after.len());
                },
                None => {
                    lemma_collect_from(ls, i + 1, 1, env, seq![]);
                },
            }
        },
        None => {
            lemma_collect_from(ls, i + 1, 1, env, seq![]);
        },
    }
}


/// The weight of all lines is that of the lines from the first on.
pub proof fn lemma_rest_weight_zero(ls: Seq<Seq<char>>)
    ensures
        rest_weight(ls, 0) == weight(ls),
{
    assert(ls.skip(0) =~= ls);
}

/// Collecting display math from line `j` stops at a line at or after `j`.
pub proof fn lemma_math_collect(ls: Seq<Seq<char>>, j: nat, acc: Seq<char>)
    requires
        j <= ls.len(),
    ensures
        j <= math_collect(ls, j, acc).1 <= ls.len(),
    decreases ls.len() - j,
{
    if j < ls.len() {
        lemma_math_collect(ls, j + 1, acc + "\n"@ + ls[j as int]);
    }
}

// ---------------------------------------------------------------------------
// Elements and URIs
// ---------------------------------------------------------------------------

/// `e` with its anchor set to `anchor`.
pub open spec fn anchored(e: ElemView, anchor: Option<Seq<char>>) -> ElemView {
    ElemView { anchor, ..e }
}

/// A paragraph with inline annotations and an anchor.
pub open spec fn para_elem(t: Seq<char>, anns: Seq<AnnView>, anchor: Option<Seq<char>>) -> ElemView {
    ElemView { kind: ElementKind::Paragraph, text: t, anns, attrs: seq![], cells: seq![], anchor }
}

/// The hyperlink a link annotation of `t` records, labelled with the text it covers,
/// of the kind its target shows.
pub open spec fn hyperlink(t: Seq<char>, a: AnnView) -> Seq<UriView> {
    match a.kind {
        KindView::Link { url, title } => if url.len() > 0 {
            seq![UriView { url, label: byte_slice(t, a.start as nat, a.end as nat), kind: link_kind(url) }]
        } else {
            seq![]
        },
        _ => seq![],
    }
}

/// The hyperlinks of the link annotations among `anns`, in order.
pub open spec fn hyperlinks(t: Seq<char>, anns: Seq<AnnView>) -> Seq<UriView>
    decreases anns.len(),
{
    if anns.len() == 0 {
        seq![]
    } else {
        hyperlinks(t, anns.drop_last()) + hyperlink(t, anns.last())
    }
}

/// The anchor `\label{key}` gives an element.
pub open spec fn label_of(t: Seq<char>) -> Option<Seq<char>> {
    spec_braced_after(t, "\\label{"@)
}

/// The placeholder paragraph an image leaves.
pub open spec fn image_placeholder(path: Seq<char>) -> Seq<char> {
    "[image: "@ + path + "]"@
}

// ---------------------------------------------------------------------------
// Headings
// ---------------------------------------------------------------------------

/// The level of a sectioning command; with chapters present `\chapter` is level 1
/// and `\section` level 2, else `\section` is level 1 and `\chapter` no heading.
pub open spec fn heading_level(cmd: Seq<char>, chapters: bool) -> Option<u8> {
    let shift: u8 = if chapters { 1 } else { 0 };
    if chapters && (cmd == "chapter"@ || cmd == "chapter*"@) {
        Some(1)
    } else if cmd == "section"@ || cmd == "section*"@ {
        Some((1 + shift) as u8)
    } else if cmd == "subsection"@ || cmd == "subsection*"@ {
        Some((2 + shift) as u8)
    } else if cmd == "subsubsection"@ || cmd == "subsubsection*"@ {
        Some((3 + shift) as u8)
    } else if cmd == "paragraph"@ || cmd == "paragraph*"@ {
        Some((4 + shift) as u8)
    } else {
        None
    }
}

/// Where a command name ends: at `{`, `[`, white space or the end.
pub open spec fn name_end(s: Seq<char>, k: nat) -> nat
    decreases s.len() - k,
{
    if k >= s.len() {
        s.len()
    } else if s[k as int] == '{' || s[k as int] == '[' || text::is_ws(s[k as int]) {
        k
    } else {
        name_end(s, k + 1)
    }
}

/// A line that starts with a sectioning command followed by `{` or `[`: its level
/// and command name.
pub open spec fn heading_cmd(t: Seq<char>, chapters: bool) -> Option<(u8, Seq<char>)> {
    if t.len() > 0 && t[0] == '\\' {
        let after = t.skip(1);
        let e = name_end(after, 0);
        let name = after.take(e as int);
        match heading_level(name, chapters) {
            None => None,
            Some(level) => {
                let rest = text::trim_start(after.skip(e as int));
                if rest.len() > 0 && (rest[0] == '{' || rest[0] == '[') {
                    Some((level, name))
                } else {
                    None
                }
            },
        }
    } else {
        None
    }
}

/// A heading line: its title stripped of inline markup, anchored by its label,
/// and the hyperlinks in the title.
pub open spec fn heading_doc(t: Seq<char>, level: u8, name: Seq<char>, d: DocView) -> DocView {
    match spec_extract_heading_title(t, name) {
        None => d,
        Some(title) => {
            let (tt, anns) = spec_strip(title);
            add_uris(
                add_elem(
                    d,
                    ElemView {
                        kind: ElementKind::Heading { level },
                        text: tt,
                        anns: seq![],
                        attrs: seq![],
                        cells: seq![],
                        anchor: label_of(t),
                    },
                ),
                hyperlinks(tt, anns),
            )
        },
    }
}

// ---------------------------------------------------------------------------
// References, citations and footnotes
// ---------------------------------------------------------------------------

/// A `[key]` paragraph for each key, each the source of a relationship of `kind`
/// to its key.
pub open spec fn key_refs(keys: Seq<Seq<char>>, kind: RelKind, d: DocView) -> DocView
    decreases keys.len(),
{
    if keys.len() == 0 {
        d
    } else {
        let d1 = key_refs(keys.drop_last(), kind, d);
        let k = keys.last();
        add_rels(
            add_elem(d1, plain(ElementKind::Paragraph, "["@ + k + "]"@)),
            seq![RelView { source: index_u32(d1.elems.len()), target: TargetView::Key(k), kind }],
        )
    }
}

/// Every `prefix{k1, k2, ...}` of `s` in turn, each non-empty trimmed key as a
/// reference of `kind`. (The read argument always lies within `s`.)
pub open spec fn refs_in(s: Seq<char>, prefix: Seq<char>, kind: RelKind, d: DocView) -> DocView
    decreases s.len(),
{
    match text::find(s, prefix) {
        None => d,
        Some(pos) => match spec_read_braced_content(s.skip(pos + prefix.len() as int)) {
            None => d,
            Some((key, n)) => {
                let d1 = key_refs(nonempty_trimmed(text::split_char(key, ',')), kind, d);
                let next = pos + prefix.len() + n;
                if prefix.len() > 0 && next <= s.len() {
                    refs_in(s.skip(next as int), prefix, kind, d1)
                } else {
                    d1
                }
            },
        },
    }
}

/// A footnote's key: `fn:` and the first twenty characters of its text.
pub open spec fn footnote_key(t: Seq<char>) -> Seq<char> {
    "fn:"@ + if t.len() <= 20 {
        t
    } else {
        t.take(20)
    }
}

/// The footnotes of `s`, first to last: each `\footnote{...}` with a non-empty
/// cleaned text adds a reference and a definition under its key; the line is
/// returned with the footnotes cut out. (The read argument always lies within `s`.)
pub open spec fn footnotes(s: Seq<char>, d: DocView) -> (DocView, Seq<char>)
    decreases s.len(),
{
    let p = "\\footnote{"@;
    match text::find(s, p) {
        None => (d, s),
        Some(fs) => match spec_read_braced_content(s.skip(fs + p.len() as int)) {
            None => (d, s),
            Some((ft, n)) => {
                let c = spec_clean_text(ft);
                let d1 = if c.len() > 0 {
                    add_elem(
                        add_elem(d, footnote_elem(ElementKind::FootnoteRef, c, footnote_key(c))),
                        footnote_elem(ElementKind::FootnoteDefinition, c, footnote_key(c)),
                    )
                } else {
                    d
                };
                let end = fs + p.len() + n;
                if end <= s.len() {
                    footnotes(s.take(fs as int) + s.skip(end as int), d1)
                } else {
                    (d1, s)
                }
            },
        },
    }
}

/// What is left of a line: a paragraph of its text stripped of inline markup and
/// trimmed, anchored by its label, after the hyperlinks it holds.
pub open spec fn paragraph_doc(lt: Seq<char>, d: DocView) -> DocView {
    if lt.len() == 0 {
        d
    } else {
        let (s, anns) = spec_strip(lt);
        let tx = text::trim(s);
        if tx.len() == 0 {
            d
        } else {
            add_elem(add_uris(d, hyperlinks(tx, anns)), para_elem(tx, anns, label_of(lt)))
        }
    }
}

// ---------------------------------------------------------------------------
// Content lines
// ---------------------------------------------------------------------------

/// A stand-alone image line: `\includegraphics` with a path.
pub open spec fn image_line(t: Seq<char>) -> bool {
    text::contains(t, "\\includegraphics"@) && spec_includegraphics_path(t) is Some
}

/// Lines that add nothing: empty, comments and commands without text.
pub open spec fn silent_line(t: Seq<char>) -> bool {
    t.len() == 0 || t[0] == '%' || spec_is_skip_command(t)
}

/// The body of display math `\[...\]` opened on line `i`.
pub open spec fn display_math(ls: Seq<Seq<char>>, i: nat, t: Seq<char>) -> Seq<char> {
    let m = if text::contains(t, "\\]"@) {
        t
    } else {
        math_collect(ls, i + 1, t).0
    };
    text::trim(trim_end_matches(trim_start_matches(m, "\\["@), "\\]"@))
}

/// What the content line `t` (line `i`, trimmed) adds: a heading, an image, or its
/// references and citations followed by display math or its footnotes and
/// paragraph.
pub open spec fn content_line(ls: Seq<Seq<char>>, i: nat, t: Seq<char>, chapters: bool, inject: bool, d: DocView) -> DocView {
    if silent_line(t) {
        d
    } else {
        match heading_cmd(t, chapters) {
            Some((level, name)) => heading_doc(t, level, name, d),
            None => if image_line(t) {
                let p = spec_includegraphics_path(t)->0;
                let d1 = add_uri(d, UriView { url: p, label: None, kind: UriKind::Image });
                if inject {
                    add_elem(d1, plain(ElementKind::Paragraph, image_placeholder(p)))
                } else {
                    d1
                }
            } else {
                let d1 = refs_in(
                    t,
                    "\\cite{"@,
                    RelKind::CitationReference,
                    refs_in(t, "\\ref{"@, RelKind::CrossReference, d),
                );
                if text::starts_with(t, "\\["@) {
                    let f = display_math(ls, i, t);
                    if f.len() > 0 {
                        add_elem(d1, plain(ElementKind::Formula, f))
                    } else {
                        d1
                    }
                } else {
                    let (d2, rest) = footnotes(t, d1);
                    paragraph_doc(text::trim(rest), d2)
                }
            },
        }
    }
}

/// The last line a content line reads: display math without its `\]` reads on
/// to the line that closes it.
pub open spec fn content_end(ls: Seq<Seq<char>>, i: nat, t: Seq<char>, chapters: bool) -> nat {
    if silent_line(t) || heading_cmd(t, chapters) is Some || image_line(t) {
        i
    } else if text::starts_with(t, "\\["@) && !text::contains(t, "\\]"@) {
        math_collect(ls, i + 1, t).1
    } else {
        i
    }
}

// ---------------------------------------------------------------------------
// Lists
// ---------------------------------------------------------------------------

/// An item's first line: `[label] rest` becomes `label: rest` (or `label:`).
pub open spec fn item_first(after: Seq<char>) -> Seq<char> {
    if after.len() > 0 && after[0] == '[' {
        match text::find_char(after, ']') {
            Some(be) => {
                let label = after.subrange(1, be as int);
                let rest = text::trim(after.skip(be + 1int));
                if rest.len() == 0 {
                    label + ":"@
                } else {
                    label + ": "@ + rest
                }
            },
            None => after,
        }
    } else {
        after
    }
}

/// Lines that end an item's continuation.
pub open spec fn item_stop(t: Seq<char>) -> bool {
    t.len() == 0 || text::starts_with(t, "\\item"@) || text::starts_with(t, "\\begin{"@)
        || text::starts_with(t, "\\end{"@) || text::starts_with(t, "\\setcounter"@)
}

/// An item's continuation lines from `k`, trimmed, and the line where it stops.
pub open spec fn item_parts(ls: Seq<Seq<char>>, k: nat, parts: Seq<Seq<char>>) -> (Seq<Seq<char>>, nat)
    decreases ls.len() - k,
{
    if k >= ls.len() {
        (parts, k)
    } else {
        let t = text::trim(ls[k as int]);
        if item_stop(t) {
            (parts, k)
        } else {
            item_parts(ls, k + 1, parts.push(t))
        }
    }
}

pub proof fn lemma_item_parts(ls: Seq<Seq<char>>, k: nat, parts: Seq<Seq<char>>)
    requires
        k <= ls.len(),
    ensures
        k <= item_parts(ls, k, parts).1 <= ls.len(),
    decreases ls.len() - k,
{
    if k < ls.len() && !item_stop(text::trim(ls[k as int])) {
        lemma_item_parts(ls, k + 1, parts.push(text::trim(ls[k as int])));
    }
}

/// A line opening a nested list.
pub open spec fn opens_list(t: Seq<char>) -> bool {
    text::contains(t, "\\begin{itemize}"@) || text::contains(t, "\\begin{enumerate}"@)
        || text::contains(t, "\\begin{description}"@)
}

/// A list item of `text`, stripped of inline markup and trimmed, when not empty.
pub open spec fn item_doc(text: Seq<char>, ordered: bool, d: DocView) -> DocView {
    if text.len() == 0 {
        d
    } else {
        let (s, anns) = spec_strip(text);
        let st = text::trim(s);
        if st.len() == 0 {
            d
        } else {
            add_elem(
                d,
                ElemView { kind: ElementKind::ListItem { ordered }, text: st, anns, attrs: seq![], cells: seq![], anchor: None },
            )
        }
    }
}

/// The items of a list body from line `i`, nested lists included.
pub open spec fn list_from(ls: Seq<Seq<char>>, i: nat, ordered: bool, d: DocView) -> DocView
    decreases rest_weight(ls, i),
{
    if i >= ls.len() {
        d
    } else {
        let t = text::trim(ls[i as int]);
        if opens_list(t) && spec_extract_env_name(t) is Some {
            let e = spec_extract_env_name(t)->0;
            let no = e == "enumerate"@;
            let (c, j) = spec_collect_environment(ls, i, e);
            proof {
                lemma_collect_lighter(ls, i, e);
                lemma_rest_weight_mono(ls, i, j);
                lemma_rest_weight_zero(text::lines(c));
            }
            let d1 = add_elem(
                list_from(text::lines(c), 0, no, add_elem(d, plain(ElementKind::ListStart { ordered: no }, seq![]))),
                plain(ElementKind::ListEnd, seq![]),
            );
            list_from(ls, j, ordered, d1)
        } else if text::starts_with(t, "\\item"@) {
            let first = item_first(text::trim(t.skip(5)));
            let (parts, j) = item_parts(ls, i + 1, if first.len() > 0 { seq![first] } else { seq![] });
            proof {
                lemma_item_parts(ls, i + 1, if first.len() > 0 { seq![first] } else { seq![] });
                lemma_rest_weight_mono(ls, i, j);
            }
            list_from(ls, j, ordered, item_doc(join_spaces(parts), ordered, d))
        } else {
            proof {
                lemma_rest_weight_mono(ls, i, i + 1);
            }
            list_from(ls, i + 1, ordered, d)
        }
    }
}

// ---------------------------------------------------------------------------
// Environments
// ---------------------------------------------------------------------------

/// The environment a line opens, if any.
pub open spec fn env_at(t: Seq<char>) -> Option<Seq<char>> {
    if text::contains(t, "\\begin{"@) || text::contains(t, "\\begin {"@) {
        spec_extract_env_name(t)
    } else {
        None
    }
}

/// The code environments.
pub open spec fn is_code_env(e: Seq<char>) -> bool {
    e == "lstlisting"@ || e == "verbatim"@ || e == "minted"@ || e == "Verbatim"@
}

/// A centred horizontal rule.
pub open spec fn is_rule(c: Seq<char>) -> bool {
    text::starts_with(c, "\\rule{"@) || text::starts_with(c, "\\rule "@)
}

/// A caption paragraph for the element at `idx`, linked to it.
pub open spec fn caption_doc(caption: Option<Seq<char>>, idx: u32, d: DocView) -> DocView {
    match caption {
        None => d,
        Some(cap) => add_rels(
            add_elem(d, plain(ElementKind::Paragraph, cap)),
            seq![RelView { source: index_u32(d.elems.len()), target: TargetView::Index(idx), kind: RelKind::Caption }],
        ),
    }
}

/// The rows of a table body's tabular. (A body whose `\end{tabular}` ends before
/// its `\begin{tabular}` starts has none.)
pub open spec fn table_body_cells(c: Seq<char>) -> Seq<Seq<Seq<char>>> {
    if tabular_in_order(c) {
        match tabular_part(c) {
            None => seq![],
            Some(tab) => {
                let il = text::lines(tab);
                if il.len() > 0 {
                    tabular_cells(text::lines(spec_collect_environment(il, 0, "tabular"@).0))
                } else {
                    seq![]
                }
            },
        }
    } else {
        seq![]
    }
}

/// A table environment: its tabular as a table anchored by its label, and its
/// caption.
pub open spec fn table_env(c: Seq<char>, d: DocView) -> DocView {
    let cells = table_body_cells(c);
    if cells.len() == 0 {
        d
    } else {
        caption_doc(
            spec_braced_after(c, "\\caption{"@),
            index_u32(d.elems.len()),
            add_elem(d, anchored(table_elem(cells), label_of(c))),
        )
    }
}

/// A figure environment: its image as a URI with the caption as label, and with
/// placeholders its `[image: path]` paragraph, anchored by its label, and its
/// caption.
pub open spec fn figure_env(c: Seq<char>, inject: bool, d: DocView) -> DocView {
    let caption = spec_braced_after(c, "\\caption{"@);
    match spec_includegraphics_path(c) {
        None => d,
        Some(p) => {
            let d1 = add_uri(d, UriView { url: p, label: caption, kind: UriKind::Image });
            if inject {
                caption_doc(
                    caption,
                    index_u32(d1.elems.len()),
                    add_elem(d1, para_elem(image_placeholder(p), seq![], label_of(c))),
                )
            } else {
                d1
            }
        },
    }
}

/// Each non-empty line as a paragraph of its own, stripped of inline markup.
pub open spec fn obey_lines(ls: Seq<Seq<char>>, d: DocView) -> DocView
    decreases ls.len(),
{
    if ls.len() == 0 {
        d
    } else {
        let d1 = obey_lines(ls.drop_last(), d);
        let lt = text::trim(ls.last());
        if lt.len() == 0 {
            d1
        } else {
            let (s, anns) = spec_strip(lt);
            if s.len() == 0 {
                d1
            } else {
                add_elem(d1, para_elem(s, anns, None))
            }
        }
    }
}

/// A math environment as a formula of its source, anchored by its label at the
/// top level.
pub open spec fn math_elem(e: Seq<char>, c: Seq<char>, top: bool) -> ElemView {
    anchored(
        plain(ElementKind::Formula, "\\begin{"@ + e + "}\n"@ + c + "\\end{"@ + e + "}"@),
        if top {
            label_of(c)
        } else {
            None
        },
    )
}

/// The line after what line `i` uses.
pub open spec fn step_next(ls: Seq<Seq<char>>, i: nat, chapters: bool) -> nat {
    let t = text::trim(ls[i as int]);
    match env_at(t) {
        Some(e) => spec_collect_environment(ls, i, e).1,
        None => content_end(ls, i, t, chapters) + 1,
    }
}

pub proof fn lemma_step_next(ls: Seq<Seq<char>>, i: nat, chapters: bool)
    requires
        i < ls.len(),
    ensures
        i < step_next(ls, i, chapters) <= ls.len() + 1,
{
    let t = text::trim(ls[i as int]);
    match env_at(t) {
        Some(e) => lemma_collect_lighter(ls, i, e),
        None => lemma_math_collect(ls, i + 1, t),
    }
}

/// What line `i` adds: an environment opened on it, or its content. `top` tells
/// the document level from the inside of an environment: tables, figures and
/// `obeylines` are handled at the top level only, and only there does math take
/// an anchor.
pub open spec fn step(ls: Seq<Seq<char>>, i: nat, top: bool, chapters: bool, inject: bool, d: DocView) -> DocView
    decreases rest_weight(ls, i), 0nat,
{
    if i >= ls.len() {
        d
    } else {
        let t = text::trim(ls[i as int]);
        match env_at(t) {
            Some(e) => {
                let c = spec_collect_environment(ls, i, e).0;
                let inner = text::lines(c);
                proof {
                    lemma_collect_lighter(ls, i, e);
                    lemma_rest_weight_zero(inner);
                }
                if is_list_env(e) {
                    let o = e == "enumerate"@;
                    add_elem(
                        list_from(inner, 0, o, add_elem(d, plain(ElementKind::ListStart { ordered: o }, seq![]))),
                        plain(ElementKind::ListEnd, seq![]),
                    )
                } else if e == "tabular"@ {
                    let cells = tabular_cells(inner);
                    if cells.len() > 0 {
                        add_elem(d, table_elem(cells))
                    } else {
                        d
                    }
                } else if top && e == "table"@ {
                    table_env(c, d)
                } else if top && e == "figure"@ {
                    figure_env(c, inject, d)
                } else if is_math_env(e) {
                    add_elem(d, math_elem(e, c, top))
                } else if is_code_env(e) {
                    add_elem(
                        d,
                        code_elem(
                            text::trim(c),
                            if e == "lstlisting"@ || e == "minted"@ {
                                spec_code_language(t)
                            } else {
                                None
                            },
                        ),
                    )
                } else if e == "quote"@ || e == "quotation"@ {
                    add_elem(
                        body_from(inner, 0, false, chapters, inject, add_elem(d, plain(ElementKind::QuoteStart, seq![]))),
                        plain(ElementKind::QuoteEnd, seq![]),
                    )
                } else if top && e == "obeylines"@ {
                    obey_lines(inner, d)
                } else if e == "center"@ && is_rule(text::trim(c)) {
                    add_elem(d, plain(ElementKind::Paragraph, "---"@))
                } else {
                    body_from(inner, 0, false, chapters, inject, d)
                }
            },
            None => content_line(ls, i, t, chapters, inject, d),
        }
    }
}

/// The lines from `i` on, inside an environment (`top` false) or at the top level.
pub open spec fn body_from(ls: Seq<Seq<char>>, i: nat, top: bool, chapters: bool, inject: bool, d: DocView) -> DocView
    decreases rest_weight(ls, i), 1nat,
{
    if i >= ls.len() {
        d
    } else {
        let j = step_next(ls, i, chapters);
        proof {
            lemma_step_next(ls, i, chapters);
            lemma_rest_weight_mono(ls, i, j);
        }
        body_from(ls, j, top, chapters, inject, step(ls, i, top, chapters, inject, d))
    }
}

// ---------------------------------------------------------------------------
// The document
// ---------------------------------------------------------------------------

/// The document lines from `i` on: outside plain TeX, nothing before
/// `\begin{document}` and nothing from `\end{document}`; in plain TeX nothing
/// from `\bye`.
pub open spec fn doc_from(
    ls: Seq<Seq<char>>,
    i: nat,
    in_doc: bool,
    plain_tex: bool,
    chapters: bool,
    inject: bool,
    d: DocView,
) -> DocView
    decreases ls.len() + 1 - i,
{
    if i >= ls.len() {
        d
    } else {
        let t = text::trim(ls[i as int]);
        if plain_tex && text::contains(t, "\\bye"@) {
            d
        } else if !plain_tex && text::contains(t, "\\begin{document}"@) {
            doc_from(ls, i + 1, true, plain_tex, chapters, inject, d)
        } else if !plain_tex && text::contains(t, "\\end{document}"@) {
            d
        } else if !in_doc {
            doc_from(ls, i + 1, in_doc, plain_tex, chapters, inject, d)
        } else {
            let j = step_next(ls, i, chapters);
            proof {
                lemma_step_next(ls, i, chapters);
            }
            doc_from(ls, j, in_doc, plain_tex, chapters, inject, step(ls, i, true, chapters, inject, d))
        }
    }
}

/// A preamble entry `(cmd, value)` for `\cmd{value}` with a non-empty value.
pub open spec fn meta_entry(src: Seq<char>, cmd: Seq<char>) -> Seq<(Seq<char>, Seq<char>)> {
    match spec_extract_braced(src, cmd) {
        Some(v) => if v.len() > 0 {
            seq![(cmd, v)]
        } else {
            seq![]
        },
        None => seq![],
    }
}

/// The title, author and date entries.
pub open spec fn meta_entries(src: Seq<char>) -> Seq<(Seq<char>, Seq<char>)> {
    meta_entry(src, "title"@) + meta_entry(src, "author"@) + meta_entry(src, "date"@)
}

/// Whether the document has chapters.
pub open spec fn has_chapters(src: Seq<char>) -> bool {
    text::contains(src, "\\chapter{"@) || text::contains(src, "\\chapter*{"@)
}

/// The structured document of a LaTeX source: a metadata block of its title,
/// author and date when it has any, then its body.
pub open spec fn spec_latex_document(src: Seq<char>, inject: bool) -> DocView {
    let plain_tex = text::contains(src, "\\bye"@) && !text::contains(src, "\\begin{document}"@);
    let entries = meta_entries(src);
    let d0 = if entries.len() > 0 {
        add_elem(empty_doc(), meta_elem(entries))
    } else {
        empty_doc()
    };
    doc_from(text::lines(src), 0, plain_tex, plain_tex, has_chapters(src), inject, d0)
}

} // verus!
