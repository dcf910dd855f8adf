//! The structured document of a Markdown (or MDX) event stream: headings,
//! paragraphs and list items with their inline annotations, code blocks,
//! quotes, lists, tables, images, footnotes, and the URIs of links and images.

use vstd::prelude::*;
use crate::text;
use crate::text::{chars_string, push_all, push_str, slice_vec, str_chars, trim_bounds, trim_vec, utf8_len_exec};
use crate::types::{
    AnnView, AnnotationKind, KindView, Table, TableView, TextAnnotation, anns_view, copy_strs, opt_str, pairs_view,
    rows_view, strs,
};
use crate::markdown_table::{table_markdown_with_header, table_md_with_header};
use crate::markdown::MarkdownExtractor;
use crate::mdx::MdxExtractor;
use crate::document::{
    add_elem, add_table, add_uri, byte_offset, byte_offset_exec, byte_slice, code_elem, footnote_elem, get_byte_range, link_kind,
    link_kind_of, empty_doc, meta_elem, plain, table_elem, DocView, ElemView, ElementKind, InternalDocument, InternalElement,
    UriKind, UriRef, UriView,
};
use crate::latex::inline::clone_kind;
use crate::orgmode::builder::trim_end_vec;
use crate::markdown_utils::{MdEvent, MdHeading, MdTag, MdTagEnd};

verus! {

/// The two dialects the builder reads. They differ in two points: an MDX link's
/// URI is labelled by the link's title (a Markdown link's by its text), and MDX
/// annotates inline code in paragraphs only (Markdown also in headings and list
/// items).
#[derive(Clone, Copy, Debug, PartialEq, Eq, Structural)]
pub enum MdFlavor {
    Markdown,
    Mdx,
}

/// An inline span being collected.
#[derive(Clone, Copy, Debug, PartialEq, Eq, Structural)]
pub enum Mark {
    Strong,
    Emphasis,
    Strike,
    Link,
}

/// A span opened at byte offset `start` of the text being collected; a link's
/// destination and title.
pub struct MarkView {
    pub mark: Mark,
    pub start: u32,
    pub link: Option<(Seq<char>, Option<Seq<char>>)>,
}

/// The builder's state: the document so far; the text and annotations of the
/// open paragraph, heading and list item; the open code block; the table being
/// read; the stack of open lists (ordered or not); the open image; the open
/// footnote definition; and the inline spans not yet closed.
pub struct MdState {
    pub doc: DocView,
    pub para: Seq<char>,
    pub para_anns: Seq<AnnView>,
    pub in_para: bool,
    pub head: Seq<char>,
    pub head_anns: Seq<AnnView>,
    pub level: u8,
    pub in_head: bool,
    pub code: Seq<char>,
    pub lang: Option<Seq<char>>,
    pub in_code: bool,
    pub rows: Seq<Seq<Seq<char>>>,
    pub row: Seq<Seq<char>>,
    pub cell: Seq<char>,
    pub in_cell: bool,
    pub lists: Seq<bool>,
    pub item: Seq<char>,
    pub item_anns: Seq<AnnView>,
    pub in_item: bool,
    pub in_image: bool,
    pub alt: Seq<char>,
    pub image_url: Option<Seq<char>>,
    pub fn_label: Option<Seq<char>>,
    pub fn_text: Seq<char>,
    pub marks: Seq<MarkView>,
}

/// The state before any event, over document `d`.
pub open spec fn initial_state(d: DocView) -> MdState {
    MdState {
        doc: d,
        para: seq![],
        para_anns: seq![],
        in_para: false,
        head: seq![],
        head_anns: seq![],
        level: 0,
        in_head: false,
        code: seq![],
        lang: None,
        in_code: false,
        rows: seq![],
        row: seq![],
        cell: seq![],
        in_cell: false,
        lists: seq![],
        item: seq![],
        item_anns: seq![],
        in_item: false,
        in_image: false,
        alt: seq![],
        image_url: None,
        fn_label: None,
        fn_text: seq![],
        marks: seq![],
    }
}

// ---------------------------------------------------------------------------
// Annotations and trimming
// ---------------------------------------------------------------------------

/// The number of bytes of leading whitespace of `s`.
pub open spec fn lead_bytes(s: Seq<char>) -> nat {
    (text::utf8_len(s) - text::utf8_len(text::trim_start(s))) as nat
}

/// An annotation made relative to the trimmed text: moved back by `lead` bytes,
/// cut at `len` bytes, and dropped when nothing of it is left.
pub open spec fn shift_ann(a: AnnView, lead: nat, len: nat) -> Option<AnnView> {
    let s: nat = if a.start >= lead {
        (a.start - lead) as nat
    } else {
        0
    };
    let e0: nat = if a.end >= lead {
        (a.end - lead) as nat
    } else {
        0
    };
    let e: nat = if e0 <= len {
        e0
    } else {
        len
    };
    if s < e {
        Some(AnnView { start: s as u32, end: e as u32, kind: a.kind })
    } else {
        None
    }
}

/// The annotations of `text` made relative to its trimmed text.
pub open spec fn trim_anns(anns: Seq<AnnView>, t: Seq<char>) -> Seq<AnnView>
    decreases anns.len(),
{
    if anns.len() == 0 {
        seq![]
    } else {
        trim_anns(anns.drop_last(), t) + match shift_ann(anns.last(), lead_bytes(t), text::utf8_len(text::trim(t))) {
            Some(a) => seq![a],
            None => seq![],
        }
    }
}

/// An element with text and annotations.
pub open spec fn annotated(kind: ElementKind, t: Seq<char>, anns: Seq<AnnView>) -> ElemView {
    ElemView { kind, text: t, anns, attrs: seq![], cells: seq![], anchor: None }
}

/// A raw block of `format`.
pub open spec fn raw_block(t: Seq<char>, format: Seq<char>) -> ElemView {
    ElemView { kind: ElementKind::RawBlock, text: t, anns: seq![], attrs: seq![("format"@, format)], cells: seq![], anchor: None }
}

/// The level of a heading.
pub open spec fn level_of(h: MdHeading) -> u8 {
    match h {
        MdHeading::H1 => 1,
        MdHeading::H2 => 2,
        MdHeading::H3 => 3,
        MdHeading::H4 => 4,
        MdHeading::H5 => 5,
        MdHeading::H6 => 6,
    }
}

/// The byte offset of the text that inline spans annotate: the open
/// paragraph's, else the open heading's, else the open list item's.
pub open spec fn active_offset(st: MdState) -> Option<u32> {
    if st.in_para {
        Some(byte_offset(st.para))
    } else if st.in_head {
        Some(byte_offset(st.head))
    } else if st.in_item {
        Some(byte_offset(st.item))
    } else {
        None
    }
}

/// Opens a span where there is text to annotate.
pub open spec fn open_mark(st: MdState, m: Mark, link: Option<(Seq<char>, Option<Seq<char>>)>) -> MdState {
    match active_offset(st) {
        Some(o) => MdState { marks: st.marks.push(MarkView { mark: m, start: o, link }), ..st },
        None => st,
    }
}

/// The last open span of kind `m` among the first `n`.
pub open spec fn last_mark(marks: Seq<MarkView>, m: Mark, n: nat) -> Option<nat>
    decreases n,
{
    if n == 0 {
        None
    } else if marks[n - 1].mark == m {
        Some((n - 1) as nat)
    } else {
        last_mark(marks, m, (n - 1) as nat)
    }
}

/// The annotation kind of a span.
pub open spec fn mark_kind(mv: MarkView) -> KindView {
    match mv.mark {
        Mark::Strong => KindView::Bold,
        Mark::Emphasis => KindView::Italic,
        Mark::Strike => KindView::Strikethrough,
        Mark::Link => match mv.link {
            Some((u, t)) => KindView::Link { url: u, title: t },
            None => KindView::Link { url: seq![], title: None },
        },
    }
}

/// `anns` with an annotation of `k` over `start..end` when it is not empty.
pub open spec fn add_ann(anns: Seq<AnnView>, start: u32, end: u32, k: KindView) -> Seq<AnnView> {
    if start < end {
        anns.push(AnnView { start, end, kind: k })
    } else {
        anns
    }
}

/// The span `mv`, closed on the text it was opened in: its annotation, and the
/// text it covers.
pub open spec fn close_on(st: MdState, mv: MarkView) -> (MdState, Option<Seq<char>>) {
    let k = mark_kind(mv);
    if st.in_para {
        let end = byte_offset(st.para);
        (
            MdState { para_anns: add_ann(st.para_anns, mv.start, end, k), ..st },
            if mv.start < end { byte_slice(st.para, mv.start as nat, end as nat) } else { None },
        )
    } else if st.in_head {
        let end = byte_offset(st.head);
        (
            MdState { head_anns: add_ann(st.head_anns, mv.start, end, k), ..st },
            if mv.start < end { byte_slice(st.head, mv.start as nat, end as nat) } else { None },
        )
    } else if st.in_item {
        let end = byte_offset(st.item);
        (
            MdState { item_anns: add_ann(st.item_anns, mv.start, end, k), ..st },
            if mv.start < end { byte_slice(st.item, mv.start as nat, end as nat) } else { None },
        )
    } else {
        (st, None)
    }
}

/// A nonempty text, or nothing.
pub open spec fn nonempty(o: Option<Seq<char>>) -> Option<Seq<char>> {
    match o {
        Some(t) => if t.len() > 0 {
            Some(t)
        } else {
            None
        },
        None => None,
    }
}

/// Closes the last open span of kind `m`, if any: its annotation on the text it
/// was opened in, and for a link with a destination, the link's URI.
pub open spec fn close_mark(f: MdFlavor, st: MdState, m: Mark) -> MdState {
    match last_mark(st.marks, m, st.marks.len()) {
        None => st,
        Some(i) => {
            let mv = st.marks[i as int];
            let st1 = MdState { marks: st.marks.remove(i as int), ..st };
            let (st2, label) = close_on(st1, mv);
            match mv.link {
                Some((url, title)) => if url.len() > 0 {
                    MdState {
                        doc: add_uri(st2.doc, UriView {
                            url,
                            label: match f {
                                MdFlavor::Markdown => nonempty(label),
                                MdFlavor::Mdx => title,
                            },
                            kind: link_kind(url),
                        }),
                        ..st2
                    }
                } else {
                    st2
                },
                None => st2,
            }
        },
    }
}

// ---------------------------------------------------------------------------
// Events
// ---------------------------------------------------------------------------

/// Text of an event where it goes: the open code block, heading, image, table
/// cell, list item, footnote definition or paragraph, the first of these that
/// is open. Inline code (`code`) is annotated in paragraphs, and in Markdown
/// also in headings and list items.
pub open spec fn text_event(f: MdFlavor, st: MdState, s: Seq<char>, code: bool) -> MdState {
    if st.in_code {
        MdState { code: st.code + s, ..st }
    } else if st.in_head {
        MdState {
            head: st.head + s,
            head_anns: if code && f == MdFlavor::Markdown {
                add_ann(st.head_anns, byte_offset(st.head), byte_offset(st.head + s), KindView::Code)
            } else {
                st.head_anns
            },
            ..st
        }
    } else if st.in_image {
        MdState { alt: st.alt + s, ..st }
    } else if st.in_cell {
        MdState { cell: st.cell + s, ..st }
    } else if st.in_item {
        MdState {
            item: st.item + s,
            item_anns: if code && f == MdFlavor::Markdown {
                add_ann(st.item_anns, byte_offset(st.item), byte_offset(st.item + s), KindView::Code)
            } else {
                st.item_anns
            },
            ..st
        }
    } else if st.fn_label is Some {
        MdState { fn_text: st.fn_text + s, ..st }
    } else if st.in_para {
        MdState {
            para: st.para + s,
            para_anns: if code {
                add_ann(st.para_anns, byte_offset(st.para), byte_offset(st.para + s), KindView::Code)
            } else {
                st.para_anns
            },
            ..st
        }
    } else {
        st
    }
}

/// A line break: a newline in code, a space in a heading, list item, footnote
/// definition or paragraph.
pub open spec fn break_event(st: MdState) -> MdState {
    if st.in_code {
        MdState { code: st.code.push('\n'), ..st }
    } else if st.in_head {
        MdState { head: st.head.push(' '), ..st }
    } else if st.in_item {
        MdState { item: st.item.push(' '), ..st }
    } else if st.fn_label is Some {
        MdState { fn_text: st.fn_text.push(' '), ..st }
    } else if st.in_para {
        MdState { para: st.para.push(' '), ..st }
    } else {
        st
    }
}

/// What a start event opens.
pub open spec fn start_event(st: MdState, t: MdTag) -> MdState {
    match t {
        MdTag::Heading(h) => MdState {
            head: seq![],
            head_anns: seq![],
            marks: seq![],
            level: level_of(h),
            in_head: true,
            ..st
        },
        MdTag::Paragraph => if !st.in_head && !st.in_item && st.fn_label is None {
            MdState { para: seq![], para_anns: seq![], in_para: true, ..st }
        } else {
            st
        },
        MdTag::Strong => open_mark(st, Mark::Strong, None),
        MdTag::Emphasis => open_mark(st, Mark::Emphasis, None),
        MdTag::Strikethrough => open_mark(st, Mark::Strike, None),
        MdTag::Link(url, title) => open_mark(
            st,
            Mark::Link,
            Some((url@, if title@.len() == 0 { None } else { Some(title@) })),
        ),
        MdTag::CodeBlock(lang) => MdState {
            code: seq![],
            lang: match lang {
                Some(l) => if l@.len() == 0 { None } else { Some(l@) },
                None => None,
            },
            in_code: true,
            ..st
        },
        MdTag::BlockQuote => MdState { doc: add_elem(st.doc, plain(ElementKind::QuoteStart, seq![])), ..st },
        MdTag::List(ordered) => MdState {
            doc: add_elem(st.doc, plain(ElementKind::ListStart { ordered }, seq![])),
            lists: st.lists.push(ordered),
            ..st
        },
        MdTag::Item => MdState { item: seq![], item_anns: seq![], marks: seq![], in_item: true, ..st },
        MdTag::Table => MdState { rows: seq![], ..st },
        MdTag::TableHead => MdState { row: seq![], ..st },
        MdTag::TableRow => MdState { row: seq![], ..st },
        MdTag::TableCell => MdState { cell: seq![], in_cell: true, ..st },
        MdTag::Image(url) => MdState { in_image: true, alt: seq![], image_url: Some(url@), ..st },
        MdTag::FootnoteDefinition(label) => MdState { fn_label: Some(label@), fn_text: seq![], ..st },
        MdTag::Other => st,
    }
}

/// The document with the block just closed added, when its trimmed text is not
/// empty.
pub open spec fn add_block(d: DocView, kind: ElementKind, t: Seq<char>, anns: Seq<AnnView>) -> DocView {
    let tt = text::trim(t);
    if tt.len() > 0 {
        add_elem(d, annotated(kind, tt, trim_anns(anns, t)))
    } else {
        d
    }
}

/// An image: its element, and the URI of its destination when it has one.
pub open spec fn image_doc(d: DocView, alt: Seq<char>, url: Option<Seq<char>>) -> DocView {
    let desc = text::trim(alt);
    let d1 = add_elem(d, plain(ElementKind::Image { image_index: u32::MAX }, desc));
    match url {
        Some(u) => if u.len() > 0 {
            add_uri(d1, UriView { url: u, label: if desc.len() == 0 { None } else { Some(desc) }, kind: UriKind::Image })
        } else {
            d1
        },
        None => d1,
    }
}

/// What an end event closes.
pub open spec fn end_event(f: MdFlavor, st: MdState, t: MdTagEnd) -> MdState {
    match t {
        MdTagEnd::Heading => MdState {
            doc: add_block(st.doc, ElementKind::Heading { level: st.level }, st.head, st.head_anns),
            in_head: false,
            head: seq![],
            head_anns: seq![],
            ..st
        },
        MdTagEnd::Paragraph => if st.in_para {
            MdState {
                doc: add_block(st.doc, ElementKind::Paragraph, st.para, st.para_anns),
                in_para: false,
                para: seq![],
                para_anns: seq![],
                ..st
            }
        } else {
            st
        },
        MdTagEnd::Strong => close_mark(f, st, Mark::Strong),
        MdTagEnd::Emphasis => close_mark(f, st, Mark::Emphasis),
        MdTagEnd::Strikethrough => close_mark(f, st, Mark::Strike),
        MdTagEnd::Link => close_mark(f, st, Mark::Link),
        MdTagEnd::CodeBlock => {
            let tt = text::trim_end(st.code);
            MdState {
                doc: if tt.len() > 0 {
                    add_elem(st.doc, code_elem(tt, st.lang))
                } else {
                    st.doc
                },
                in_code: false,
                code: seq![],
                lang: None,
                ..st
            }
        },
        MdTagEnd::BlockQuote => MdState { doc: add_elem(st.doc, plain(ElementKind::QuoteEnd, seq![])), ..st },
        MdTagEnd::List => if st.lists.len() > 0 {
            MdState { doc: add_elem(st.doc, plain(ElementKind::ListEnd, seq![])), lists: st.lists.drop_last(), ..st }
        } else {
            st
        },
        MdTagEnd::Item => MdState {
            doc: if st.lists.len() > 0 {
                add_block(st.doc, ElementKind::ListItem { ordered: st.lists.last() }, st.item, st.item_anns)
            } else {
                st.doc
            },
            in_item: false,
            item: seq![],
            item_anns: seq![],
            ..st
        },
        MdTagEnd::Table => MdState {
            doc: if st.rows.len() > 0 {
                add_table(
                    add_elem(st.doc, table_elem(st.rows)),
                    TableView { cells: st.rows, markdown: table_md_with_header(st.rows), page_number: 1 },
                )
            } else {
                st.doc
            },
            rows: seq![],
            ..st
        },
        MdTagEnd::TableHead => if st.row.len() > 0 {
            MdState { rows: st.rows.push(st.row), row: seq![], ..st }
        } else {
            st
        },
        MdTagEnd::TableRow => if st.row.len() > 0 {
            MdState { rows: st.rows.push(st.row), row: seq![], ..st }
        } else {
            st
        },
        MdTagEnd::TableCell => MdState { in_cell: false, row: st.row.push(text::trim(st.cell)), cell: seq![], ..st },
        MdTagEnd::Image => MdState {
            doc: image_doc(st.doc, st.alt, st.image_url),
            in_image: false,
            image_url: None,
            alt: seq![],
            ..st
        },
        MdTagEnd::FootnoteDefinition => MdState {
            doc: match st.fn_label {
                Some(l) => {
                    let tt = text::trim(st.fn_text);
                    if tt.len() > 0 {
                        add_elem(st.doc, footnote_elem(ElementKind::FootnoteDefinition, tt, l))
                    } else {
                        st.doc
                    }
                },
                None => st.doc,
            },
            fn_label: None,
            fn_text: seq![],
            ..st
        },
        MdTagEnd::Other => st,
    }
}

/// What one event does.
pub open spec fn md_step(f: MdFlavor, st: MdState, e: MdEvent) -> MdState {
    match e {
        MdEvent::Start(t) => start_event(st, t),
        MdEvent::End(t) => end_event(f, st, t),
        MdEvent::Text(s) => text_event(f, st, s@, false),
        MdEvent::Code(s) => text_event(f, st, s@, true),
        MdEvent::SoftBreak => break_event(st),
        MdEvent::HardBreak => break_event(st),
        MdEvent::FootnoteReference(name) => MdState {
            doc: add_elem(st.doc, footnote_elem(ElementKind::FootnoteRef, name@, name@)),
            ..st
        },
        MdEvent::Html(s) => if st.fn_label is Some {
            MdState { fn_text: st.fn_text + s@, ..st }
        } else if st.in_para {
            MdState { para: st.para + s@, ..st }
        } else {
            st
        },
        MdEvent::TaskListMarker(checked) => if st.in_item {
            MdState {
                item: st.item + if checked {
                    "[x] "@
                } else {
                    "[ ] "@
                },
                ..st
            }
        } else {
            st
        },
        MdEvent::Rule => st,
        MdEvent::Other => st,
    }
}

/// The state after `events`, from `st`.
pub open spec fn md_fold(f: MdFlavor, st: MdState, events: Seq<MdEvent>) -> MdState
    decreases events.len(),
{
    if events.len() == 0 {
        st
    } else {
        md_step(f, md_fold(f, st, events.drop_last()), events.last())
    }
}

/// The document before the events: the front matter entries as a metadata
/// block, when there are any.
pub open spec fn frontmatter_doc(d: DocView, entries: Seq<(Seq<char>, Seq<char>)>) -> DocView {
    if entries.len() > 0 {
        add_elem(d, meta_elem(entries))
    } else {
        d
    }
}

/// The JSX blocks as raw blocks, those that are not blank.
pub open spec fn jsx_doc(d: DocView, blocks: Seq<Seq<char>>) -> DocView
    decreases blocks.len(),
{
    if blocks.len() == 0 {
        d
    } else {
        let d1 = jsx_doc(d, blocks.drop_last());
        if text::trim(blocks.last()).len() > 0 {
            add_elem(d1, raw_block(blocks.last(), "jsx"@))
        } else {
            d1
        }
    }
}

// ---------------------------------------------------------------------------
// The builder
// ---------------------------------------------------------------------------

/// An open inline span.
pub struct OpenMark {
    pub mark: Mark,
    pub start: u32,
    pub link: Option<(String, Option<String>)>,
}

impl View for OpenMark {
    type V = MarkView;

    open spec fn view(&self) -> MarkView {
        MarkView {
            mark: self.mark,
            start: self.start,
            link: match self.link {
                Some(p) => Some((p.0@, opt_str(p.1))),
                None => None,
            },
        }
    }
}

/// The views of open spans.
pub open spec fn marks_view(v: Seq<OpenMark>) -> Seq<MarkView> {
    v.map_values(|m: OpenMark| m@)
}

/// The view of optional characters.
pub open spec fn opt_chars(o: Option<Vec<char>>) -> Option<Seq<char>> {
    match o {
        Some(v) => Some(v@),
        None => None,
    }
}

/// The builder's state, as executable values.
struct MdBuilder {
    doc: InternalDocument,
    para: Vec<char>,
    para_anns: Vec<TextAnnotation>,
    in_para: bool,
    head: Vec<char>,
    head_anns: Vec<TextAnnotation>,
    level: u8,
    in_head: bool,
    code: Vec<char>,
    lang: Option<Vec<char>>,
    in_code: bool,
    rows: Vec<Vec<String>>,
    row: Vec<String>,
    cell: Vec<char>,
    in_cell: bool,
    lists: Vec<bool>,
    item: Vec<char>,
    item_anns: Vec<TextAnnotation>,
    in_item: bool,
    in_image: bool,
    alt: Vec<char>,
    image_url: Option<Vec<char>>,
    fn_label: Option<Vec<char>>,
    fn_text: Vec<char>,
    marks: Vec<OpenMark>,
}

impl View for MdBuilder {
    type V = MdState;

    closed spec fn view(&self) -> MdState {
        MdState {
            doc: self.doc@,
            para: self.para@,
            para_anns: anns_view(self.para_anns@),
            in_para: self.in_para,
            head: self.head@,
            head_anns: anns_view(self.head_anns@),
            level: self.level,
            in_head: self.in_head,
            code: self.code@,
            lang: opt_chars(self.lang),
            in_code: self.in_code,
            rows: rows_view(self.rows@),
            row: strs(self.row@),
            cell: self.cell@,
            in_cell: self.in_cell,
            lists: self.lists@,
            item: self.item@,
            item_anns: anns_view(self.item_anns@),
            in_item: self.in_item,
            in_image: self.in_image,
            alt: self.alt@,
            image_url: opt_chars(self.image_url),
            fn_label: opt_chars(self.fn_label),
            fn_text: self.fn_text@,
            marks: marks_view(self.marks@),
        }
    }
}

/// The annotations of `t` made relative to its trimmed text.
fn trim_anns_exec(anns: &Vec<TextAnnotation>, t: &[char]) -> (r: Vec<TextAnnotation>)
    ensures
        anns_view(r@) == trim_anns(anns_view(anns@), t@),
{
    let (a, b) = trim_bounds(t);
    let head = slice_vec(t, 0, a);
    let tail = slice_vec(t, a, t.len());
    let body = slice_vec(t, a, b);
    let lead = utf8_len_exec(head.as_slice());
    let len = utf8_len_exec(body.as_slice());
    proof {
        assert(head@ + tail@ =~= t@);
        text::lemma_utf8_len_concat(head@, tail@);
        assert(lead == lead_bytes(t@));
        assert(len == text::utf8_len(text::trim(t@)));
    }
    let ghost av = anns_view(anns@);
    let mut r: Vec<TextAnnotation> = Vec::new();
    let mut k: usize = 0;
    assert(av.take(0) =~= Seq::<AnnView>::empty());
    while k < anns.len()
        invariant
            k <= anns@.len(),
            av == anns_view(anns@),
            lead == lead_bytes(t@),
            len == text::utf8_len(text::trim(t@)),
            anns_view(r@) == trim_anns(av.take(k as int), t@),
        decreases anns@.len() - k,
    {
        assert(av.take(k + 1).drop_last() =~= av.take(k as int));
        let x = &anns[k];
        let s: u128 = if x.start as u128 >= lead {
            x.start as u128 - lead
        } else {
            0
        };
        let e0: u128 = if x.end as u128 >= lead {
            x.end as u128 - lead
        } else {
            0
        };
        let e: u128 = if e0 <= len {
            e0
        } else {
            len
        };
        let ghost before = anns_view(r@);
        if s < e {
            r.push(TextAnnotation { start: s as u32, end: e as u32, kind: clone_kind(&x.kind) });
            assert(anns_view(r@) =~= before + seq![AnnView { start: s as u32, end: e as u32, kind: x.kind@ }]);
        } else {
            assert(anns_view(r@) =~= before + Seq::<AnnView>::empty());
        }
        k = k + 1;
    }
    assert(av.take(k as int) =~= av);
    r
}

/// Adds an annotation of `k` over `start..end` when it is not empty.
fn add_ann_exec(anns: &mut Vec<TextAnnotation>, start: u32, end: u32, k: AnnotationKind)
    ensures
        anns_view(final(anns)@) == add_ann(anns_view(old(anns)@), start, end, k@),
{
    if start < end {
        let ghost before = anns_view(anns@);
        anns.push(TextAnnotation { start, end, kind: k });
        assert(anns_view(anns@) =~= before.push(AnnView { start, end, kind: k@ }));
    }
}

/// Adds the block just closed, when its trimmed text is not empty.
fn push_block(doc: &mut InternalDocument, kind: ElementKind, t: &[char], anns: &Vec<TextAnnotation>)
    ensures
        final(doc)@ == add_block(old(doc)@, kind, t@, anns_view(anns@)),
        final(doc).source_format == old(doc).source_format,
{
    let tt = trim_vec(t);
    if tt.len() > 0 {
        let adjusted = trim_anns_exec(anns, t);
        let e = InternalElement {
            kind,
            text: chars_string(tt.as_slice()),
            annotations: adjusted,
            attributes: Vec::new(),
            cells: Vec::new(),
            anchor: None,
        };
        assert(e@.attrs =~= Seq::<(Seq<char>, Seq<char>)>::empty());
        assert(e@.cells =~= Seq::<Seq<Seq<char>>>::empty());
        doc.push_element(e);
    }
}

/// A copy of table rows.
fn copy_rows(rows: &Vec<Vec<String>>) -> (r: Vec<Vec<String>>)
    ensures
        rows_view(r@) == rows_view(rows@),
{
    let mut r: Vec<Vec<String>> = Vec::new();
    let mut k: usize = 0;
    while k < rows.len()
        invariant
            k <= rows@.len(),
            rows_view(r@) == rows_view(rows@).take(k as int),
        decreases rows@.len() - k,
    {
        let row = copy_strs(&rows[k]);
        let ghost before = rows_view(r@);
        r.push(row);
        assert(rows_view(r@) =~= before.push(strs(rows@[k as int]@)));
        assert(rows_view(rows@).take(k + 1) =~= rows_view(rows@).take(k as int).push(strs(rows@[k as int]@)));
        k = k + 1;
    }
    assert(rows_view(rows@).take(k as int) =~= rows_view(rows@));
    r
}

/// Adds an element with one attribute.
fn push_with_attr(doc: &mut InternalDocument, kind: ElementKind, t: &[char], key: &str, value: &[char])
    ensures
        final(doc).source_format == old(doc).source_format,
        final(doc)@ == add_elem(
            old(doc)@,
            ElemView { kind, text: t@, anns: seq![], attrs: seq![(key@, value@)], cells: seq![], anchor: None },
        ),
{
    let mut attrs: Vec<(String, String)> = Vec::new();
    let a = (key.to_owned(), chars_string(value));
    let ghost av = (a.0@, a.1@);
    attrs.push(a);
    let e = InternalElement {
        kind,
        text: chars_string(t),
        annotations: Vec::new(),
        attributes: attrs,
        cells: Vec::new(),
        anchor: None,
    };
    assert(e@.anns =~= Seq::<AnnView>::empty());
    assert(e@.attrs =~= seq![av]);
    assert(e@.cells =~= Seq::<Seq<Seq<char>>>::empty());
    doc.push_element(e);
}

/// The last open span of kind `m`.
fn last_mark_exec(marks: &Vec<OpenMark>, m: Mark) -> (r: Option<usize>)
    ensures
        r matches Some(i) ==> i < marks@.len() && last_mark(marks_view(marks@), m, marks@.len()) == Some(i as nat),
        r is None ==> last_mark(marks_view(marks@), m, marks@.len()) is None,
{
    let ghost mv = marks_view(marks@);
    let mut n = marks.len();
    while n > 0
        invariant
            n <= marks@.len(),
            mv == marks_view(marks@),
            last_mark(mv, m, marks@.len()) == last_mark(mv, m, n as nat),
        decreases n,
    {
        if marks[n - 1].mark == m {
            return Some(n - 1);
        }
        n = n - 1;
    }
    None
}

/// The level of a heading.
fn level_of_exec(h: MdHeading) -> (r: u8)
    ensures
        r == level_of(h),
{
    match h {
        MdHeading::H1 => 1,
        MdHeading::H2 => 2,
        MdHeading::H3 => 3,
        MdHeading::H4 => 4,
        MdHeading::H5 => 5,
        MdHeading::H6 => 6,
    }
}

/// The annotation kind of a span.
fn mark_kind_exec(mv: &OpenMark) -> (k: AnnotationKind)
    ensures
        k@ == mark_kind(mv@),
{
    match mv.mark {
        Mark::Strong => AnnotationKind::Bold,
        Mark::Emphasis => AnnotationKind::Italic,
        Mark::Strike => AnnotationKind::Strikethrough,
        Mark::Link => match &mv.link {
            Some(p) => {
                let t = match &p.1 {
                    Some(x) => Some(x.clone()),
                    None => None,
                };
                AnnotationKind::Link { url: p.0.clone(), title: t }
            },
            None => AnnotationKind::Link { url: String::new(), title: None },
        },
    }
}

impl MdBuilder {
    /// The builder before any event, over `doc`.
    fn new(doc: InternalDocument) -> (r: MdBuilder)
        ensures
            r@ == initial_state(doc@),
            r.doc.source_format == doc.source_format,
    {
        let b = MdBuilder {
            doc,
            para: Vec::new(),
            para_anns: Vec::new(),
            in_para: false,
            head: Vec::new(),
            head_anns: Vec::new(),
            level: 0,
            in_head: false,
            code: Vec::new(),
            lang: None,
            in_code: false,
            rows: Vec::new(),
            row: Vec::new(),
            cell: Vec::new(),
            in_cell: false,
            lists: Vec::new(),
            item: Vec::new(),
            item_anns: Vec::new(),
            in_item: false,
            in_image: false,
            alt: Vec::new(),
            image_url: None,
            fn_label: None,
            fn_text: Vec::new(),
            marks: Vec::new(),
        };
        assert(b@.para_anns =~= Seq::<AnnView>::empty());
        assert(b@.head_anns =~= Seq::<AnnView>::empty());
        assert(b@.item_anns =~= Seq::<AnnView>::empty());
        assert(b@.rows =~= Seq::<Seq<Seq<char>>>::empty());
        assert(b@.row =~= Seq::<Seq<char>>::empty());
        assert(b@.marks =~= Seq::<MarkView>::empty());
        b
    }

    /// Opens a span where there is text to annotate.
    fn open_mark_exec(&mut self, m: Mark, link: Option<(String, Option<String>)>)
        ensures
            final(self)@ == open_mark(
                old(self)@,
                m,
                match link {
                    Some(p) => Some((p.0@, opt_str(p.1))),
                    None => None,
                },
            ),
            final(self).doc.source_format == old(self).doc.source_format,
    {
        let o = if self.in_para {
            Some(byte_offset_exec(self.para.as_slice()))
        } else if self.in_head {
            Some(byte_offset_exec(self.head.as_slice()))
        } else if self.in_item {
            Some(byte_offset_exec(self.item.as_slice()))
        } else {
            None
        };
        match o {
            Some(start) => {
                let ghost before = marks_view(self.marks@);
                let mk = OpenMark { mark: m, start, link };
                let ghost mkv = mk@;
                self.marks.push(mk);
                assert(marks_view(self.marks@) =~= before.push(mkv));
            },
            None => {},
        }
    }

    /// Closes span `mv` on the text it was opened in; returns the text it covers.
    fn close_on_exec(&mut self, mv: &OpenMark) -> (label: Option<Vec<char>>)
        ensures
            final(self)@ == close_on(old(self)@, mv@).0,
            opt_chars(label) == close_on(old(self)@, mv@).1,
            final(self).doc.source_format == old(self).doc.source_format,
    {
        let k = mark_kind_exec(mv);
        if self.in_para {
            let end = byte_offset_exec(self.para.as_slice());
            add_ann_exec(&mut self.para_anns, mv.start, end, k);
            if mv.start < end {
                get_byte_range(self.para.as_slice(), mv.start, end)
            } else {
                None
            }
        } else if self.in_head {
            let end = byte_offset_exec(self.head.as_slice());
            add_ann_exec(&mut self.head_anns, mv.start, end, k);
            if mv.start < end {
                get_byte_range(self.head.as_slice(), mv.start, end)
            } else {
                None
            }
        } else if self.in_item {
            let end = byte_offset_exec(self.item.as_slice());
            add_ann_exec(&mut self.item_anns, mv.start, end, k);
            if mv.start < end {
                get_byte_range(self.item.as_slice(), mv.start, end)
            } else {
                None
            }
        } else {
            None
        }
    }

    /// Closes the last open span of kind `m`, if any.
    fn close_mark_exec(&mut self, f: MdFlavor, m: Mark)
        ensures
            final(self)@ == close_mark(f, old(self)@, m),
            final(self).doc.source_format == old(self).doc.source_format,
    {
        match last_mark_exec(&self.marks, m) {
            None => {},
            Some(i) => {
                let ghost mv0 = marks_view(self.marks@);
                let mv = self.marks.remove(i);
                assert(marks_view(self.marks@) =~= mv0.remove(i as int));
                let label = self.close_on_exec(&mv);
                match mv.link {
                    Some(p) => {
                        let (url, title) = p;
                        if !url.as_str().is_empty() {
                            let uc = str_chars(url.as_str());
                            let kind = link_kind_of(uc.as_slice());
                            let l = match f {
                                MdFlavor::Markdown => match label {
                                    Some(v) => if v.len() > 0 {
                                        Some(chars_string(v.as_slice()))
                                    } else {
                                        None
                                    },
                                    None => None,
                                },
                                MdFlavor::Mdx => title,
                            };
                            self.doc.push_uri(UriRef { url, label: l, kind });
                        }
                    },
                    None => {},
                }
            },
        }
    }

    /// Text of an event where it goes.
    fn text_exec(&mut self, f: MdFlavor, s: &[char], code: bool)
        ensures
            final(self)@ == text_event(f, old(self)@, s@, code),
            final(self).doc.source_format == old(self).doc.source_format,
    {
        if self.in_code {
            push_all(&mut self.code, s);
        } else if self.in_head {
            let start = byte_offset_exec(self.head.as_slice());
            push_all(&mut self.head, s);
            if code && f == MdFlavor::Markdown {
                let end = byte_offset_exec(self.head.as_slice());
                add_ann_exec(&mut self.head_anns, start, end, AnnotationKind::Code);
            }
        } else if self.in_image {
            push_all(&mut self.alt, s);
        } else if self.in_cell {
            push_all(&mut self.cell, s);
        } else if self.in_item {
            let start = byte_offset_exec(self.item.as_slice());
            push_all(&mut self.item, s);
            if code && f == MdFlavor::Markdown {
                let end = byte_offset_exec(self.item.as_slice());
                add_ann_exec(&mut self.item_anns, start, end, AnnotationKind::Code);
            }
        } else if self.fn_label.is_some() {
            push_all(&mut self.fn_text, s);
        } else if self.in_para {
            let start = byte_offset_exec(self.para.as_slice());
            push_all(&mut self.para, s);
            if code {
                let end = byte_offset_exec(self.para.as_slice());
                add_ann_exec(&mut self.para_anns, start, end, AnnotationKind::Code);
            }
        }
    }

    /// A line break.
    fn break_exec(&mut self)
        ensures
            final(self)@ == break_event(old(self)@),
            final(self).doc.source_format == old(self).doc.source_format,
    {
        if self.in_code {
            self.code.push('\n');
        } else if self.in_head {
            self.head.push(' ');
        } else if self.in_item {
            self.item.push(' ');
        } else if self.fn_label.is_some() {
            self.fn_text.push(' ');
        } else if self.in_para {
            self.para.push(' ');
        }
    }
}



impl MdBuilder {
    /// What a start event opens.
    fn start_exec(&mut self, t: &MdTag)
        ensures
            final(self)@ == start_event(old(self)@, *t),
            final(self).doc.source_format == old(self).doc.source_format,
    {
        match t {
            MdTag::Heading(h) => {
                self.head = Vec::new();
                self.head_anns = Vec::new();
                self.marks = Vec::new();
                self.level = level_of_exec(*h);
                self.in_head = true;
                assert(anns_view(self.head_anns@) =~= Seq::<AnnView>::empty());
                assert(marks_view(self.marks@) =~= Seq::<MarkView>::empty());
            },
            MdTag::Paragraph => {
                if !self.in_head && !self.in_item && self.fn_label.is_none() {
                    self.para = Vec::new();
                    self.para_anns = Vec::new();
                    self.in_para = true;
                    assert(anns_view(self.para_anns@) =~= Seq::<AnnView>::empty());
                }
            },
            MdTag::Strong => self.open_mark_exec(Mark::Strong, None),
            MdTag::Emphasis => self.open_mark_exec(Mark::Emphasis, None),
            MdTag::Strikethrough => self.open_mark_exec(Mark::Strike, None),
            MdTag::Link(url, title) => {
                let tl = if title.as_str().is_empty() {
                    None
                } else {
                    Some(title.clone())
                };
                self.open_mark_exec(Mark::Link, Some((url.clone(), tl)));
            },
            MdTag::CodeBlock(lang) => {
                self.code = Vec::new();
                self.lang = match lang {
                    Some(l) => if l.as_str().is_empty() {
                        None
                    } else {
                        Some(str_chars(l.as_str()))
                    },
                    None => None,
                };
                self.in_code = true;
            },
            MdTag::BlockQuote => {
                let none: Vec<char> = Vec::new();
                self.doc.push_plain(ElementKind::QuoteStart, none.as_slice());
            },
            MdTag::List(ordered) => {
                let none: Vec<char> = Vec::new();
                self.doc.push_plain(ElementKind::ListStart { ordered: *ordered }, none.as_slice());
                self.lists.push(*ordered);
            },
            MdTag::Item => {
                self.item = Vec::new();
                self.item_anns = Vec::new();
                self.marks = Vec::new();
                self.in_item = true;
                assert(anns_view(self.item_anns@) =~= Seq::<AnnView>::empty());
                assert(marks_view(self.marks@) =~= Seq::<MarkView>::empty());
            },
            MdTag::Table => {
                self.rows = Vec::new();
                assert(rows_view(self.rows@) =~= Seq::<Seq<Seq<char>>>::empty());
            },
            MdTag::TableHead => {
                self.row = Vec::new();
                assert(strs(self.row@) =~= Seq::<Seq<char>>::empty());
            },
            MdTag::TableRow => {
                self.row = Vec::new();
                assert(strs(self.row@) =~= Seq::<Seq<char>>::empty());
            },
            MdTag::TableCell => {
                self.cell = Vec::new();
                self.in_cell = true;
            },
            MdTag::Image(url) => {
                self.in_image = true;
                self.alt = Vec::new();
                self.image_url = Some(str_chars(url.as_str()));
            },
            MdTag::FootnoteDefinition(label) => {
                self.fn_label = Some(str_chars(label.as_str()));
                self.fn_text = Vec::new();
            },
            MdTag::Other => {},
        }
    }

    /// Closes the open image: its element and the URI of its destination.
    fn end_image_exec(&mut self)
        ensures
            final(self)@ == end_event(MdFlavor::Markdown, old(self)@, MdTagEnd::Image),
            final(self).doc.source_format == old(self).doc.source_format,
    {
        let desc = trim_vec(self.alt.as_slice());
        self.doc.push_plain(ElementKind::Image { image_index: u32::MAX }, desc.as_slice());
        let mut u: Option<Vec<char>> = None;
        std::mem::swap(&mut u, &mut self.image_url);
        match u {
            Some(v) => {
                if v.len() > 0 {
                    let label = if desc.len() == 0 {
                        None
                    } else {
                        Some(chars_string(desc.as_slice()))
                    };
                    self.doc.push_uri(UriRef { url: chars_string(v.as_slice()), label, kind: UriKind::Image });
                }
            },
            None => {},
        }
        self.in_image = false;
        self.alt = Vec::new();
    }

    /// Closes the open table, row or cell.
    fn end_table_exec(&mut self, t: MdTagEnd)
        requires
            t == MdTagEnd::Table || t == MdTagEnd::TableHead || t == MdTagEnd::TableRow || t == MdTagEnd::TableCell,
        ensures
            final(self)@ == end_event(MdFlavor::Markdown, old(self)@, t),
            final(self).doc.source_format == old(self).doc.source_format,
    {
        match t {
            MdTagEnd::Table => {
                if self.rows.len() > 0 {
                    let mut rows: Vec<Vec<String>> = Vec::new();
                    std::mem::swap(&mut rows, &mut self.rows);
                    let kept = copy_rows(&rows);
                    let md = chars_string(table_markdown_with_header(rows.as_slice()).as_slice());
                    let table = Table { cells: kept, markdown: md, page_number: 1 };
                    let e = InternalElement {
                        kind: ElementKind::Table,
                        text: String::new(),
                        annotations: Vec::new(),
                        attributes: Vec::new(),
                        cells: rows,
                        anchor: None,
                    };
                    assert(e@.text =~= Seq::<char>::empty());
                    assert(e@.anns =~= Seq::<AnnView>::empty());
                    assert(e@.attrs =~= Seq::<(Seq<char>, Seq<char>)>::empty());
                    self.doc.push_element(e);
                    self.doc.push_table(table);
                }
                self.rows = Vec::new();
                assert(rows_view(self.rows@) =~= Seq::<Seq<Seq<char>>>::empty());
            },
            MdTagEnd::TableCell => {
                let c = trim_vec(self.cell.as_slice());
                let ghost before = strs(self.row@);
                self.row.push(chars_string(c.as_slice()));
                assert(strs(self.row@) =~= before.push(c@));
                self.in_cell = false;
                self.cell = Vec::new();
            },
            _ => {
                if self.row.len() > 0 {
                    let mut row: Vec<String> = Vec::new();
                    std::mem::swap(&mut row, &mut self.row);
                    let ghost before = rows_view(self.rows@);
                    let ghost rv = strs(row@);
                    self.rows.push(row);
                    assert(rows_view(self.rows@) =~= before.push(rv));
                    assert(strs(self.row@) =~= Seq::<Seq<char>>::empty());
                }
            },
        }
    }

    /// What an end event closes.
    #[verifier::spinoff_prover]
    #[verifier::rlimit(40)]
    fn end_exec(&mut self, f: MdFlavor, t: MdTagEnd)
        ensures
            final(self)@ == end_event(f, old(self)@, t),
            final(self).doc.source_format == old(self).doc.source_format,
    {
        match t {
            MdTagEnd::Heading => {
                push_block(&mut self.doc, ElementKind::Heading { level: self.level }, self.head.as_slice(), &self.head_anns);
                self.in_head = false;
                self.head = Vec::new();
                self.head_anns = Vec::new();
                assert(anns_view(self.head_anns@) =~= Seq::<AnnView>::empty());
            },
            MdTagEnd::Paragraph => {
                if self.in_para {
                    push_block(&mut self.doc, ElementKind::Paragraph, self.para.as_slice(), &self.para_anns);
                    self.in_para = false;
                    self.para = Vec::new();
                    self.para_anns = Vec::new();
                    assert(anns_view(self.para_anns@) =~= Seq::<AnnView>::empty());
                }
            },
            MdTagEnd::Strong => self.close_mark_exec(f, Mark::Strong),
            MdTagEnd::Emphasis => self.close_mark_exec(f, Mark::Emphasis),
            MdTagEnd::Strikethrough => self.close_mark_exec(f, Mark::Strike),
            MdTagEnd::Link => self.close_mark_exec(f, Mark::Link),
            MdTagEnd::CodeBlock => {
                let tt = trim_end_vec(self.code.as_slice());
                if tt.len() > 0 {
                    match &self.lang {
                        Some(l) => push_with_attr(&mut self.doc, ElementKind::Code, tt.as_slice(), "language", l.as_slice()),
                        None => self.doc.push_plain(ElementKind::Code, tt.as_slice()),
                    }
                }
                self.in_code = false;
                self.code = Vec::new();
                self.lang = None;
            },
            MdTagEnd::BlockQuote => {
                let none: Vec<char> = Vec::new();
                self.doc.push_plain(ElementKind::QuoteEnd, none.as_slice());
            },
            MdTagEnd::List => {
                if self.lists.len() > 0 {
                    let none: Vec<char> = Vec::new();
                    self.doc.push_plain(ElementKind::ListEnd, none.as_slice());
                    self.lists.pop();
                }
            },
            MdTagEnd::Item => {
                if self.lists.len() > 0 {
                    let ordered = self.lists[self.lists.len() - 1];
                    push_block(&mut self.doc, ElementKind::ListItem { ordered }, self.item.as_slice(), &self.item_anns);
                }
                self.in_item = false;
                self.item = Vec::new();
                self.item_anns = Vec::new();
                assert(anns_view(self.item_anns@) =~= Seq::<AnnView>::empty());
            },
            MdTagEnd::Table => self.end_table_exec(t),
            MdTagEnd::TableHead => self.end_table_exec(t),
            MdTagEnd::TableRow => self.end_table_exec(t),
            MdTagEnd::TableCell => self.end_table_exec(t),
            MdTagEnd::Image => self.end_image_exec(),
            MdTagEnd::FootnoteDefinition => {
                let mut l: Option<Vec<char>> = None;
                std::mem::swap(&mut l, &mut self.fn_label);
                match l {
                    Some(label) => {
                        let tt = trim_vec(self.fn_text.as_slice());
                        if tt.len() > 0 {
                            push_with_attr(
                                &mut self.doc,
                                ElementKind::FootnoteDefinition,
                                tt.as_slice(),
                                "label",
                                label.as_slice(),
                            );
                        }
                    },
                    None => {},
                }
                self.fn_text = Vec::new();
            },
            MdTagEnd::Other => {},
        }
    }

    /// What one event does.
    fn step(&mut self, f: MdFlavor, e: &MdEvent)
        ensures
            final(self)@ == md_step(f, old(self)@, *e),
            final(self).doc.source_format == old(self).doc.source_format,
    {
        match e {
            MdEvent::Start(t) => self.start_exec(t),
            MdEvent::End(t) => self.end_exec(f, *t),
            MdEvent::Text(s) => {
                let sc = str_chars(s.as_str());
                self.text_exec(f, sc.as_slice(), false);
            },
            MdEvent::Code(s) => {
                let sc = str_chars(s.as_str());
                self.text_exec(f, sc.as_slice(), true);
            },
            MdEvent::SoftBreak => self.break_exec(),
            MdEvent::HardBreak => self.break_exec(),
            MdEvent::FootnoteReference(name) => {
                let nc = str_chars(name.as_str());
                push_with_attr(&mut self.doc, ElementKind::FootnoteRef, nc.as_slice(), "label", nc.as_slice());
            },
            MdEvent::Html(s) => {
                if self.fn_label.is_some() {
                    push_str(&mut self.fn_text, s.as_str());
                } else if self.in_para {
                    push_str(&mut self.para, s.as_str());
                }
            },
            MdEvent::TaskListMarker(checked) => {
                if self.in_item {
                    if *checked {
                        push_str(&mut self.item, "[x] ");
                    } else {
                        push_str(&mut self.item, "[ ] ");
                    }
                }
            },
            MdEvent::Rule => {},
            MdEvent::Other => {},
        }
    }
}

/// Runs the events through a builder over `doc`.
fn build_events(f: MdFlavor, doc: InternalDocument, events: &[MdEvent]) -> (r: InternalDocument)
    ensures
        r@ == md_fold(f, initial_state(doc@), events@).doc,
        r.source_format == doc.source_format,
{
    let ghost st0 = initial_state(doc@);
    let ghost sf = doc.source_format;
    let mut b = MdBuilder::new(doc);
    let mut k: usize = 0;
    assert(events@.take(0) =~= Seq::<MdEvent>::empty());
    while k < events.len()
        invariant
            k <= events@.len(),
            b@ == md_fold(f, st0, events@.take(k as int)),
            b.doc.source_format == sf,
        decreases events@.len() - k,
    {
        assert(events@.take(k + 1).drop_last() =~= events@.take(k as int));
        b.step(f, &events[k]);
        k = k + 1;
    }
    assert(events@.take(k as int) =~= events@);
    b.doc
}


/// A copy of key-value pairs.
fn copy_pairs(v: &[(String, String)]) -> (r: Vec<(String, String)>)
    ensures
        pairs_view(r@) == pairs_view(v@),
{
    let mut r: Vec<(String, String)> = Vec::new();
    let mut k: usize = 0;
    while k < v.len()
        invariant
            k <= v@.len(),
            pairs_view(r@) == pairs_view(v@).take(k as int),
        decreases v@.len() - k,
    {
        let p = (v[k].0.clone(), v[k].1.clone());
        let ghost before = pairs_view(r@);
        r.push(p);
        assert(pairs_view(r@) =~= before.push((v@[k as int].0@, v@[k as int].1@)));
        assert(pairs_view(v@).take(k + 1) =~= pairs_view(v@).take(k as int).push((v@[k as int].0@, v@[k as int].1@)));
        k = k + 1;
    }
    assert(pairs_view(v@).take(k as int) =~= pairs_view(v@));
    r
}

/// Adds the front matter entries as a metadata block, when there are any.
fn push_frontmatter(doc: &mut InternalDocument, entries: &[(String, String)])
    ensures
        final(doc)@ == frontmatter_doc(old(doc)@, pairs_view(entries@)),
        final(doc).source_format == old(doc).source_format,
{
    if entries.len() > 0 {
        let e = InternalElement {
            kind: ElementKind::MetadataBlock,
            text: String::new(),
            annotations: Vec::new(),
            attributes: copy_pairs(entries),
            cells: Vec::new(),
            anchor: None,
        };
        assert(e@.text =~= Seq::<char>::empty());
        assert(e@.anns =~= Seq::<AnnView>::empty());
        assert(e@.cells =~= Seq::<Seq<Seq<char>>>::empty());
        doc.push_element(e);
    }
}

/// Adds the JSX blocks that are not blank as raw blocks.
fn push_jsx(doc: &mut InternalDocument, blocks: &[String])
    ensures
        final(doc)@ == jsx_doc(old(doc)@, strs(blocks@)),
        final(doc).source_format == old(doc).source_format,
{
    let ghost bv = strs(blocks@);
    let ghost d0 = doc@;
    let mut k: usize = 0;
    assert(bv.take(0) =~= Seq::<Seq<char>>::empty());
    while k < blocks.len()
        invariant
            k <= blocks@.len(),
            bv == strs(blocks@),
            doc@ == jsx_doc(d0, bv.take(k as int)),
            doc.source_format == old(doc).source_format,
        decreases blocks@.len() - k,
    {
        assert(bv.take(k + 1).drop_last() =~= bv.take(k as int));
        let b = str_chars(blocks[k].as_str());
        let tb = trim_vec(b.as_slice());
        if tb.len() > 0 {
            let fmt = str_chars("jsx");
            proof {
                reveal_strlit("jsx");
            }
            push_with_attr(doc, ElementKind::RawBlock, b.as_slice(), "format", fmt.as_slice());
        }
        k = k + 1;
    }
    assert(bv.take(k as int) =~= bv);
}

/// The document of a Markdown event stream after its front matter entries.
pub open spec fn spec_markdown_document(events: Seq<MdEvent>, entries: Seq<(Seq<char>, Seq<char>)>) -> DocView {
    md_fold(MdFlavor::Markdown, initial_state(frontmatter_doc(empty_doc(), entries)), events).doc
}

/// The document of an MDX event stream after its front matter entries and its
/// JSX blocks.
pub open spec fn spec_mdx_document(
    events: Seq<MdEvent>,
    entries: Seq<(Seq<char>, Seq<char>)>,
    blocks: Seq<Seq<char>>,
) -> DocView {
    md_fold(MdFlavor::Mdx, initial_state(jsx_doc(frontmatter_doc(empty_doc(), entries), blocks)), events).doc
}

impl MarkdownExtractor {
    /// The structured document of a Markdown event stream: the front matter
    /// entries (string keys, values rendered as text) as a metadata block,
    /// then what the events build.
    pub fn build_internal_document(events: &[MdEvent], frontmatter: &[(String, String)]) -> (r: InternalDocument)
        ensures
            r@ == spec_markdown_document(events@, pairs_view(frontmatter@)),
            r.source_format@ == "markdown"@,
    {
        let mut doc = InternalDocument::new("markdown");
        push_frontmatter(&mut doc, frontmatter);
        build_events(MdFlavor::Markdown, doc, events)
    }
}

impl MdxExtractor {
    /// The structured document of an MDX event stream: the front matter
    /// entries as a metadata block, the JSX blocks that are not blank as raw
    /// `jsx` blocks, then what the events build.
    pub fn build_internal_document(
        events: &[MdEvent],
        frontmatter: &[(String, String)],
        raw_jsx_blocks: &[String],
    ) -> (r: InternalDocument)
        ensures
            r@ == spec_mdx_document(events@, pairs_view(frontmatter@), strs(raw_jsx_blocks@)),
            r.source_format@ == "mdx"@,
    {
        let mut doc = InternalDocument::new("mdx");
        push_frontmatter(&mut doc, frontmatter);
        push_jsx(&mut doc, raw_jsx_blocks);
        build_events(MdFlavor::Mdx, doc, events)
    }
}


// ---------------------------------------------------------------------------
// Annotations stay within their text
// ---------------------------------------------------------------------------

/// An element's annotations are not empty and end within its text.
pub open spec fn elem_fits(e: ElemView) -> bool {
    forall|j: int|
        0 <= j < e.anns.len() ==> (#[trigger] e.anns[j]).start < e.anns[j].end && e.anns[j].end
            <= text::utf8_len(e.text)
}

/// Every element of `d` has its annotations within its text.
pub open spec fn anns_fit(d: DocView) -> bool {
    forall|i: int| 0 <= i < d.elems.len() ==> elem_fits(#[trigger] d.elems[i])
}

proof fn lemma_trim_anns_fit(anns: Seq<AnnView>, t: Seq<char>)
    ensures
        forall|j: int|
            0 <= j < trim_anns(anns, t).len() ==> (#[trigger] trim_anns(anns, t)[j]).start < trim_anns(anns, t)[j].end
                && trim_anns(anns, t)[j].end <= text::utf8_len(text::trim(t)),
    decreases anns.len(),
{
    if anns.len() > 0 {
        lemma_trim_anns_fit(anns.drop_last(), t);
    }
}

proof fn lemma_add_fit(d: DocView, e: ElemView)
    requires
        anns_fit(d),
        elem_fits(e),
    ensures
        anns_fit(add_elem(d, e)),
{
    let d1 = add_elem(d, e);
    assert forall|i: int| 0 <= i < d1.elems.len() implies elem_fits(#[trigger] d1.elems[i]) by {
        if i < d.elems.len() {
            assert(d1.elems[i] == d.elems[i]);
        }
    }
}

proof fn lemma_add_block_fit(d: DocView, kind: ElementKind, t: Seq<char>, anns: Seq<AnnView>)
    requires
        anns_fit(d),
    ensures
        anns_fit(add_block(d, kind, t, anns)),
{
    if text::trim(t).len() > 0 {
        lemma_trim_anns_fit(anns, t);
        lemma_add_fit(d, annotated(kind, text::trim(t), trim_anns(anns, t)));
    }
}

proof fn lemma_plain_fit(d: DocView, kind: ElementKind, t: Seq<char>)
    requires
        anns_fit(d),
    ensures
        anns_fit(add_elem(d, plain(kind, t))),
{
    lemma_add_fit(d, plain(kind, t));
}

proof fn lemma_close_mark_fit(f: MdFlavor, st: MdState, m: Mark)
    requires
        anns_fit(st.doc),
    ensures
        anns_fit(close_mark(f, st, m).doc),
{
    match last_mark(st.marks, m, st.marks.len()) {
        None => {},
        Some(i) => {
            let mv = st.marks[i as int];
            let st1 = MdState { marks: st.marks.remove(i as int), ..st };
            let (st2, label) = close_on(st1, mv);
            assert(st2.doc == st.doc);
        },
    }
}

proof fn lemma_start_fit(st: MdState, t: MdTag)
    requires
        anns_fit(st.doc),
    ensures
        anns_fit(start_event(st, t).doc),
{
    match t {
        MdTag::BlockQuote => lemma_plain_fit(st.doc, ElementKind::QuoteStart, seq![]),
        MdTag::List(ordered) => lemma_plain_fit(st.doc, ElementKind::ListStart { ordered }, seq![]),
        _ => {},
    }
}

proof fn lemma_end_fit(f: MdFlavor, st: MdState, t: MdTagEnd)
    requires
        anns_fit(st.doc),
    ensures
        anns_fit(end_event(f, st, t).doc),
{
    match t {
        MdTagEnd::Heading => lemma_add_block_fit(st.doc, ElementKind::Heading { level: st.level }, st.head, st.head_anns),
        MdTagEnd::Paragraph => lemma_add_block_fit(st.doc, ElementKind::Paragraph, st.para, st.para_anns),
        MdTagEnd::Strong => lemma_close_mark_fit(f, st, Mark::Strong),
        MdTagEnd::Emphasis => lemma_close_mark_fit(f, st, Mark::Emphasis),
        MdTagEnd::Strikethrough => lemma_close_mark_fit(f, st, Mark::Strike),
        MdTagEnd::Link => lemma_close_mark_fit(f, st, Mark::Link),
        MdTagEnd::CodeBlock => {
            let tt = text::trim_end(st.code);
            if tt.len() > 0 {
                lemma_add_fit(st.doc, code_elem(tt, st.lang));
            }
        },
        MdTagEnd::BlockQuote => lemma_plain_fit(st.doc, ElementKind::QuoteEnd, seq![]),
        MdTagEnd::List => lemma_plain_fit(st.doc, ElementKind::ListEnd, seq![]),
        MdTagEnd::Item => if st.lists.len() > 0 {
            lemma_add_block_fit(st.doc, ElementKind::ListItem { ordered: st.lists.last() }, st.item, st.item_anns);
        },
        MdTagEnd::Table => if st.rows.len() > 0 {
            lemma_add_fit(st.doc, table_elem(st.rows));
        },
        MdTagEnd::Image => {
            lemma_plain_fit(st.doc, ElementKind::Image { image_index: u32::MAX }, text::trim(st.alt));
        },
        MdTagEnd::FootnoteDefinition => match st.fn_label {
            Some(l) => lemma_add_fit(st.doc, footnote_elem(ElementKind::FootnoteDefinition, text::trim(st.fn_text), l)),
            None => {},
        },
        _ => {},
    }
}

proof fn lemma_fold_fit(f: MdFlavor, st: MdState, events: Seq<MdEvent>)
    requires
        anns_fit(st.doc),
    ensures
        anns_fit(md_fold(f, st, events).doc),
    decreases events.len(),
{
    if events.len() > 0 {
        lemma_fold_fit(f, st, events.drop_last());
        let s = md_fold(f, st, events.drop_last());
        match events.last() {
            MdEvent::Start(t) => lemma_start_fit(s, t),
            MdEvent::End(t) => lemma_end_fit(f, s, t),
            MdEvent::FootnoteReference(name) => lemma_add_fit(
                s.doc,
                footnote_elem(ElementKind::FootnoteRef, name@, name@),
            ),
            _ => {},
        }
    }
}

proof fn lemma_prefix_fit(entries: Seq<(Seq<char>, Seq<char>)>, blocks: Seq<Seq<char>>)
    ensures
        anns_fit(jsx_doc(frontmatter_doc(empty_doc(), entries), blocks)),
    decreases blocks.len(),
{
    if blocks.len() == 0 {
        if entries.len() > 0 {
            lemma_add_fit(empty_doc(), meta_elem(entries));
        }
    } else {
        lemma_prefix_fit(entries, blocks.drop_last());
        if text::trim(blocks.last()).len() > 0 {
            lemma_add_fit(jsx_doc(frontmatter_doc(empty_doc(), entries), blocks.drop_last()), raw_block(blocks.last(), "jsx"@));
        }
    }
}

/// In a document built from Markdown, every annotation of a heading, paragraph
/// or list item is a nonempty byte range that ends within the element's
/// (trimmed) text: trimming never leaves one pointing past the text.
pub proof fn lemma_markdown_annotations_fit(events: Seq<MdEvent>, entries: Seq<(Seq<char>, Seq<char>)>)
    ensures
        anns_fit(spec_markdown_document(events, entries)),
{
    lemma_prefix_fit(entries, seq![]);
    assert(jsx_doc(frontmatter_doc(empty_doc(), entries), seq![]) == frontmatter_doc(empty_doc(), entries));
    lemma_fold_fit(MdFlavor::Markdown, initial_state(frontmatter_doc(empty_doc(), entries)), events);
}

/// The same of a document built from MDX.
pub proof fn lemma_mdx_annotations_fit(
    events: Seq<MdEvent>,
    entries: Seq<(Seq<char>, Seq<char>)>,
    blocks: Seq<Seq<char>>,
)
    ensures
        anns_fit(spec_mdx_document(events, entries, blocks)),
{
    lemma_prefix_fit(entries, blocks);
    lemma_fold_fit(MdFlavor::Mdx, initial_state(jsx_doc(frontmatter_doc(empty_doc(), entries), blocks)), events);
}

} // verus!
