//! The structured document the line-based builders produce: elements in reading
//! order, the URIs found in them and the internal links between them.

use vstd::prelude::*;
use crate::text;
use crate::types::{
    AnnView, ExtractedImage, ImageView, Metadata, MetadataView, Table, TableView, TextAnnotation, anns_view,
    empty_metadata, images_view, opt_str, pairs_view, rows_view, strs, tables_view,
};

verus! {

/// The kind of a document element.
#[derive(Clone, Copy, Debug, PartialEq, Eq)]
pub enum ElementKind {
    Title,
    Heading { level: u8 },
    Paragraph,
    Code,
    QuoteStart,
    QuoteEnd,
    RawBlock,
    Table,
    ListStart { ordered: bool },
    ListItem { ordered: bool },
    ListEnd,
    FootnoteDefinition,
    FootnoteRef,
    MetadataBlock,
    Image { image_index: u32 },
    Slide { number: u32 },
    Formula,
}

/// One element: its kind and text, inline annotations over byte ranges of the
/// text, attributes (a code block's `language`, a raw block's `format`, a
/// footnote's `label`, a metadata block's entries), a table's cells, and the
/// anchor other elements refer to it by.
#[derive(Clone, Debug, PartialEq)]
pub struct InternalElement {
    pub kind: ElementKind,
    pub text: String,
    pub annotations: Vec<TextAnnotation>,
    pub attributes: Vec<(String, String)>,
    pub cells: Vec<Vec<String>>,
    pub anchor: Option<String>,
}

/// The mathematical value of an element.
pub struct ElemView {
    pub kind: ElementKind,
    pub text: Seq<char>,
    pub anns: Seq<AnnView>,
    pub attrs: Seq<(Seq<char>, Seq<char>)>,
    pub cells: Seq<Seq<Seq<char>>>,
    pub anchor: Option<Seq<char>>,
}

impl View for InternalElement {
    type V = ElemView;

    open spec fn view(&self) -> ElemView {
        ElemView {
            kind: self.kind,
            text: self.text@,
            anns: anns_view(self.annotations@),
            attrs: pairs_view(self.attributes@),
            cells: rows_view(self.cells@),
            anchor: opt_str(self.anchor),
        }
    }
}

/// An element with text only.
pub open spec fn plain(kind: ElementKind, text: Seq<char>) -> ElemView {
    ElemView { kind, text, anns: seq![], attrs: seq![], cells: seq![], anchor: None }
}

/// What a URI points at.
#[derive(Clone, Copy, Debug, PartialEq, Eq)]
pub enum UriKind {
    Hyperlink,
    Image,
    Anchor,
    Email,
}

/// A URI found in the document, with its label and kind.
#[derive(Clone, Debug, PartialEq, Eq)]
pub struct UriRef {
    pub url: String,
    pub label: Option<String>,
    pub kind: UriKind,
}

/// The mathematical value of a URI.
pub struct UriView {
    pub url: Seq<char>,
    pub label: Option<Seq<char>>,
    pub kind: UriKind,
}

impl View for UriRef {
    type V = UriView;

    open spec fn view(&self) -> UriView {
        UriView { url: self.url@, label: crate::types::opt_str(self.label), kind: self.kind }
    }
}

/// What a relationship points at: a key (anchor, heading, label, citation) or
/// an element by index.
#[derive(Clone, Debug, PartialEq, Eq)]
pub enum RelTarget {
    Key(String),
    Index(u32),
}

/// The mathematical value of a relationship target.
pub enum TargetView {
    Key(Seq<char>),
    Index(u32),
}

/// The kind of a relationship.
#[derive(Clone, Copy, Debug, PartialEq, Eq)]
pub enum RelKind {
    InternalLink,
    CrossReference,
    CitationReference,
    Caption,
}

/// A relationship from element `source` to `target`.
#[derive(Clone, Debug, PartialEq, Eq)]
pub struct Relationship {
    pub source: u32,
    pub target: RelTarget,
    pub kind: RelKind,
}

/// The mathematical value of a relationship.
pub struct RelView {
    pub source: u32,
    pub target: TargetView,
    pub kind: RelKind,
}

impl View for Relationship {
    type V = RelView;

    open spec fn view(&self) -> RelView {
        RelView {
            source: self.source,
            target: match self.target {
                RelTarget::Key(k) => TargetView::Key(k@),
                RelTarget::Index(i) => TargetView::Index(i),
            },
            kind: self.kind,
        }
    }
}

/// A built document: the format it came from, its elements, URIs and
/// relationships, and the metadata set on it.
#[derive(Clone, Debug, PartialEq)]
pub struct InternalDocument {
    pub source_format: String,
    pub mime_type: String,
    pub elements: Vec<InternalElement>,
    pub uris: Vec<UriRef>,
    pub relationships: Vec<Relationship>,
    pub metadata: Metadata,
    pub images: Vec<ExtractedImage>,
    pub tables: Vec<Table>,
}

/// What a builder has produced so far.
pub struct DocView {
    pub elems: Seq<ElemView>,
    pub uris: Seq<UriView>,
    pub rels: Seq<RelView>,
    pub meta: MetadataView,
    pub images: Seq<ImageView>,
    pub tables: Seq<TableView>,
}

/// The views of elements.
pub open spec fn elems_view(v: Seq<InternalElement>) -> Seq<ElemView> {
    v.map_values(|e: InternalElement| e@)
}

impl View for InternalDocument {
    type V = DocView;

    open spec fn view(&self) -> DocView {
        DocView {
            elems: elems_view(self.elements@),
            uris: self.uris@.map_values(|u: UriRef| u@),
            rels: self.relationships@.map_values(|r: Relationship| r@),
            meta: self.metadata@,
            images: images_view(self.images@),
            tables: tables_view(self.tables@),
        }
    }
}

/// Nothing produced yet.
pub open spec fn empty_doc() -> DocView {
    DocView { elems: seq![], uris: seq![], rels: seq![], meta: empty_metadata(), images: seq![], tables: seq![] }
}

/// `d` with element `e` added.
pub open spec fn add_elem(d: DocView, e: ElemView) -> DocView {
    DocView { elems: d.elems.push(e), ..d }
}

/// `d` with URI `u` added.
pub open spec fn add_uri(d: DocView, u: UriView) -> DocView {
    DocView { uris: d.uris.push(u), ..d }
}

/// `d` with an image added to its images and an element of text `t` that
/// refers to it by its index (modulo 2^32).
pub open spec fn add_image(d: DocView, t: Seq<char>, img: ImageView) -> DocView {
    add_elem(
        DocView { images: d.images.push(img), ..d },
        plain(ElementKind::Image { image_index: index_u32(d.images.len()) }, t),
    )
}

/// `d` with a table recorded among its tables.
pub open spec fn add_table(d: DocView, t: TableView) -> DocView {
    DocView { tables: d.tables.push(t), ..d }
}

/// `d` with internal links added.
pub open spec fn add_rels(d: DocView, r: Seq<RelView>) -> DocView {
    DocView { rels: d.rels + r, ..d }
}

/// A metadata block holding `entries`.
pub open spec fn meta_elem(entries: Seq<(Seq<char>, Seq<char>)>) -> ElemView {
    ElemView { kind: ElementKind::MetadataBlock, text: seq![], anns: seq![], attrs: entries, cells: seq![], anchor: None }
}

/// A code block, with its language when given.
pub open spec fn code_elem(t: Seq<char>, language: Option<Seq<char>>) -> ElemView {
    ElemView {
        kind: ElementKind::Code,
        text: t,
        anns: seq![],
        attrs: match language {
            Some(l) => seq![("language"@, l)],
            None => seq![],
        },
        cells: seq![],
        anchor: None,
    }
}

/// A table of `rows`.
pub open spec fn table_elem(rows: Seq<Seq<Seq<char>>>) -> ElemView {
    ElemView { kind: ElementKind::Table, text: seq![], anns: seq![], attrs: seq![], cells: rows, anchor: None }
}

/// A footnote element (definition or reference) of `label`.
pub open spec fn footnote_elem(kind: ElementKind, t: Seq<char>, label: Seq<char>) -> ElemView {
    ElemView { kind, text: t, anns: seq![], attrs: seq![("label"@, label)], cells: seq![], anchor: None }
}

/// `d` with URIs added.
pub open spec fn add_uris(d: DocView, us: Seq<UriView>) -> DocView {
    DocView { uris: d.uris + us, ..d }
}

/// An offset or index as a `u32` (modulo 2^32).
pub open spec fn index_u32(n: nat) -> u32 {
    (n % 0x1_0000_0000) as u32
}

impl InternalElement {
    /// The value of attribute `key`, if the element has it.
    pub fn attribute(&self, key: &str) -> (r: Option<&str>)
        ensures
            r matches Some(v) ==> exists|k: int|
                0 <= k < self.attributes@.len() && self.attributes@[k].0@ == key@ && #[trigger] self.attributes@[k].1@
                    == v@,
            r is None ==> forall|k: int| 0 <= k < self.attributes@.len() ==> #[trigger] self.attributes@[k].0@ != key@,
    {
        let mut k: usize = 0;
        while k < self.attributes.len()
            invariant
                k <= self.attributes@.len(),
                forall|j: int| 0 <= j < k ==> #[trigger] self.attributes@[j].0@ != key@,
            decreases self.attributes@.len() - k,
        {
            if text::str_eq(self.attributes[k].0.as_str(), key) {
                return Some(self.attributes[k].1.as_str());
            }
            k = k + 1;
        }
        None
    }
}

impl InternalDocument {
    /// An empty document from `source_format`.
    pub fn new(source_format: &str) -> (r: InternalDocument)
        ensures
            r@ == empty_doc(),
            r.source_format@ == source_format@,
    {
        let d = InternalDocument {
            source_format: source_format.to_owned(),
            mime_type: String::new(),
            elements: Vec::new(),
            uris: Vec::new(),
            relationships: Vec::new(),
            metadata: Metadata::new(),
            images: Vec::new(),
            tables: Vec::new(),
        };
        assert(d@.elems =~= Seq::<ElemView>::empty());
        assert(d@.uris =~= Seq::<UriView>::empty());
        assert(d@.rels =~= Seq::<RelView>::empty());
        assert(d@.images =~= Seq::<ImageView>::empty());
        assert(d@.tables =~= Seq::<TableView>::empty());
        d
    }

    /// Adds an element.
    pub fn push_element(&mut self, e: InternalElement)
        ensures
            final(self)@ == add_elem(old(self)@, e@),
            final(self).source_format == old(self).source_format,
            final(self).mime_type == old(self).mime_type,
    {
        let ghost before = self@;
        self.elements.push(e);
        assert(self@.elems =~= before.elems.push(e@));
    }

    /// Adds an element of `kind` with text only.
    pub fn push_plain(&mut self, kind: ElementKind, t: &[char])
        ensures
            final(self)@ == add_elem(old(self)@, plain(kind, t@)),
            final(self).source_format == old(self).source_format,
            final(self).mime_type == old(self).mime_type,
    {
        let e = InternalElement {
            kind,
            text: text::chars_string(t),
            annotations: Vec::new(),
            attributes: Vec::new(),
            cells: Vec::new(),
            anchor: None,
        };
        assert(e@.anns =~= Seq::<AnnView>::empty());
        assert(e@.attrs =~= Seq::<(Seq<char>, Seq<char>)>::empty());
        assert(e@.cells =~= Seq::<Seq<Seq<char>>>::empty());
        self.push_element(e);
    }

    /// Adds a URI.
    pub fn push_uri(&mut self, u: UriRef)
        ensures
            final(self)@ == add_uri(old(self)@, u@),
            final(self).source_format == old(self).source_format,
            final(self).mime_type == old(self).mime_type,
    {
        let ghost before = self@;
        self.uris.push(u);
        assert(self@.uris =~= before.uris.push(u@));
    }

    /// Sets the document's metadata.
    pub fn set_metadata(&mut self, m: Metadata)
        ensures
            final(self)@ == (DocView { meta: m@, ..old(self)@ }),
            final(self).source_format == old(self).source_format,
            final(self).mime_type == old(self).mime_type,
    {
        self.metadata = m;
    }

    /// Adds URIs, in order.
    pub fn append_uris(&mut self, v: Vec<UriRef>)
        ensures
            final(self)@ == (DocView { uris: old(self)@.uris + v@.map_values(|u: UriRef| u@), ..old(self)@ }),
            final(self).source_format == old(self).source_format,
            final(self).mime_type == old(self).mime_type,
    {
        let ghost before = self@;
        let ghost vv = v@;
        let mut v = v;
        self.uris.append(&mut v);
        assert(self@.uris =~= before.uris + vv.map_values(|u: UriRef| u@));
    }

    /// Adds internal links, in order.
    pub fn append_relationships(&mut self, v: Vec<Relationship>)
        ensures
            final(self)@ == add_rels(old(self)@, v@.map_values(|r: Relationship| r@)),
            final(self).source_format == old(self).source_format,
            final(self).mime_type == old(self).mime_type,
    {
        let ghost before = self@;
        let ghost vv = v@;
        let mut v = v;
        self.relationships.append(&mut v);
        assert(self@.rels =~= before.rels + vv.map_values(|r: Relationship| r@));
    }

    /// Adds an image: stored with the document's images, and an image element,
    /// described by `description` (or empty), refers to it by its index.
    pub fn push_image(&mut self, description: Option<&str>, image: ExtractedImage)
        ensures
            final(self)@ == add_image(old(self)@, match description {
                Some(d) => d@,
                None => seq![],
            }, image@),
            final(self).source_format == old(self).source_format,
            final(self).mime_type == old(self).mime_type,
    {
        let idx = ((self.images.len() as u64) % 0x1_0000_0000) as u32;
        let t = match description {
            Some(d) => text::str_chars(d),
            None => Vec::new(),
        };
        let ghost before = self@;
        let ghost iv = image@;
        self.images.push(image);
        assert(images_view(self.images@) =~= before.images.push(iv));
        self.push_plain(ElementKind::Image { image_index: idx }, t.as_slice());
    }

    /// Records a table among the document's tables.
    pub fn push_table(&mut self, table: Table)
        ensures
            final(self)@ == add_table(old(self)@, table@),
            final(self).source_format == old(self).source_format,
            final(self).mime_type == old(self).mime_type,
    {
        let ghost before = self@;
        let ghost tv = table@;
        self.tables.push(table);
        assert(tables_view(self.tables@) =~= before.tables.push(tv));
    }

    /// Adds an internal link.
    pub fn push_relationship(&mut self, r: Relationship)
        ensures
            final(self)@ == add_rels(old(self)@, seq![r@]),
            final(self).source_format == old(self).source_format,
            final(self).mime_type == old(self).mime_type,
    {
        let ghost before = self@;
        self.relationships.push(r);
        assert(self@.rels =~= before.rels + seq![r@]);
    }
}

// ---------------------------------------------------------------------------
// Byte ranges of text
// ---------------------------------------------------------------------------

/// The character index at which `s` reaches byte offset `b`, walking from
/// character `k` at byte `acc`; `None` when `b` is not a character boundary.
pub open spec fn char_at_byte(s: Seq<char>, b: nat, k: nat, acc: nat) -> Option<nat>
    decreases s.len() - k,
{
    if acc == b {
        Some(k)
    } else if k >= s.len() || acc > b {
        None
    } else {
        char_at_byte(s, b, k + 1, acc + text::char_utf8_len(s[k as int]))
    }
}

/// `s[a..b]` by byte offsets (`str::get`): `None` unless both are character
/// boundaries in order.
pub open spec fn byte_slice(s: Seq<char>, a: nat, b: nat) -> Option<Seq<char>> {
    match (char_at_byte(s, a, 0, 0), char_at_byte(s, b, 0, 0)) {
        (Some(i), Some(j)) => if i <= j {
            Some(s.subrange(i as int, j as int))
        } else {
            None
        },
        _ => None,
    }
}

proof fn lemma_char_at_byte(s: Seq<char>, b: nat, k: nat, acc: nat)
    requires
        k <= s.len(),
    ensures
        char_at_byte(s, b, k, acc) matches Some(i) ==> k <= i <= s.len(),
    decreases s.len() - k,
{
    if acc != b && k < s.len() && acc <= b {
        lemma_char_at_byte(s, b, k + 1, acc + text::char_utf8_len(s[k as int]));
    }
}

/// The character index of byte offset `b` in `s`.
fn char_index_of_byte(s: &[char], b: u128) -> (r: Option<usize>)
    ensures
        r matches Some(i) ==> char_at_byte(s@, b as nat, 0, 0) == Some(i as nat),
        r is None ==> char_at_byte(s@, b as nat, 0, 0) is None,
{
    let mut k: usize = 0;
    let mut acc: u128 = 0;
    proof {
        lemma_char_at_byte(s@, b as nat, 0, 0);
    }
    loop
        invariant
            k <= s@.len(),
            acc <= 4 * k,
            char_at_byte(s@, b as nat, 0, 0) == char_at_byte(s@, b as nat, k as nat, acc as nat),
        decreases s@.len() - k,
    {
        if acc == b {
            return Some(k);
        }
        if k >= s.len() || acc > b {
            return None;
        }
        let c = text::len_utf8(s[k]);
        acc = acc + c as u128;
        k = k + 1;
    }
}

/// `s[a..b]` by byte offsets, when both are character boundaries in order.
pub fn get_byte_range(s: &[char], a: u32, b: u32) -> (r: Option<Vec<char>>)
    ensures
        r matches Some(v) ==> byte_slice(s@, a as nat, b as nat) == Some(v@),
        r is None ==> byte_slice(s@, a as nat, b as nat) is None,
{
    proof {
        lemma_char_at_byte(s@, a as nat, 0, 0);
        lemma_char_at_byte(s@, b as nat, 0, 0);
    }
    match (char_index_of_byte(s, a as u128), char_index_of_byte(s, b as u128)) {
        (Some(i), Some(j)) => if i <= j {
            Some(text::slice_vec(s, i, j))
        } else {
            None
        },
        _ => None,
    }
}

/// A byte offset into text, as a `u32` (modulo 2^32).
pub open spec fn byte_offset(s: Seq<char>) -> u32 {
    (text::utf8_len(s) % 0x1_0000_0000) as u32
}

/// The byte offset of `s` as a `u32`.
pub fn byte_offset_exec(s: &[char]) -> (r: u32)
    ensures
        r == byte_offset(s@),
{
    let n = text::utf8_len_exec(s);
    (n % 0x1_0000_0000) as u32
}

/// What a link's target is: an anchor, an e-mail address or a hyperlink.
pub open spec fn link_kind(url: Seq<char>) -> UriKind {
    if text::starts_with(url, "#"@) {
        UriKind::Anchor
    } else if text::starts_with(url, "mailto:"@) {
        UriKind::Email
    } else {
        UriKind::Hyperlink
    }
}

/// The kind of a link's target.
pub fn link_kind_of(url: &[char]) -> (k: UriKind)
    ensures
        k == link_kind(url@),
{
    if text::starts_with_str(url, "#") {
        UriKind::Anchor
    } else if text::starts_with_str(url, "mailto:") {
        UriKind::Email
    } else {
        UriKind::Hyperlink
    }
}


/// Byte offset `b` of `t` falls on a character boundary.
pub open spec fn on_char_boundary(t: Seq<char>, b: nat) -> bool {
    exists|j: int| 0 <= j <= t.len() && text::utf8_len(#[trigger] t.take(j)) == b
}

/// Every annotation is a nonempty byte range of `t` whose ends fall on
/// character boundaries.
pub open spec fn anns_within(t: Seq<char>, anns: Seq<AnnView>) -> bool {
    forall|k: int|
        0 <= k < anns.len() ==> {
            let a = #[trigger] anns[k];
            &&& a.start < a.end
            &&& a.end <= text::utf8_len(t)
            &&& on_char_boundary(t, a.start as nat)
            &&& on_char_boundary(t, a.end as nat)
        }
}

/// The start and the end of `t` are character boundaries of `t + w`.
pub proof fn lemma_boundaries_of_prefix(t: Seq<char>, w: Seq<char>)
    ensures
        on_char_boundary(t + w, text::utf8_len(t)),
        on_char_boundary(t + w, 0),
        text::utf8_len(t) <= text::utf8_len(t + w),
{
    assert((t + w).take(t.len() as int) =~= t);
    assert((t + w).take(0) =~= Seq::<char>::empty());
    assert(text::utf8_len((t + w).take(t.len() as int)) == text::utf8_len(t));
    assert(text::utf8_len((t + w).take(0)) == 0);
    text::lemma_utf8_len_concat(t, w);
}

/// Appending text keeps annotations within it.
pub proof fn lemma_anns_within_extend(t: Seq<char>, w: Seq<char>, anns: Seq<AnnView>)
    requires
        anns_within(t, anns),
    ensures
        anns_within(t + w, anns),
{
    text::lemma_utf8_len_concat(t, w);
    assert forall|b: nat| on_char_boundary(t, b) implies on_char_boundary(t + w, b) by {
        let j = choose|j: int| 0 <= j <= t.len() && text::utf8_len(#[trigger] t.take(j)) == b;
        assert((t + w).take(j) =~= t.take(j));
        assert(text::utf8_len((t + w).take(j)) == b);
    }
    assert forall|k: int| 0 <= k < anns.len() implies {
        let a = #[trigger] anns[k];
        &&& a.start < a.end
        &&& a.end <= text::utf8_len(t + w)
        &&& on_char_boundary(t + w, a.start as nat)
        &&& on_char_boundary(t + w, a.end as nat)
    } by {
        let a = anns[k];
        assert(on_char_boundary(t, a.start as nat));
        assert(on_char_boundary(t, a.end as nat));
    }
}


/// Where `o` starts with `out + w`, it starts with `out`, and is at least as
/// long in bytes as `out + w`.
pub proof fn lemma_prefix_bound(out: Seq<char>, w: Seq<char>, o: Seq<char>)
    requires
        o.len() >= (out + w).len(),
        o.take((out + w).len() as int) == out + w,
    ensures
        o.len() >= out.len(),
        o.take(out.len() as int) == out,
        text::utf8_len(out + w) <= text::utf8_len(o),
        text::utf8_len(out) <= text::utf8_len(out + w),
{
    assert(o.take(out.len() as int) =~= (out + w).take(out.len() as int));
    assert((out + w).take(out.len() as int) =~= out);
    assert(o =~= (out + w) + o.skip((out + w).len() as int));
    text::lemma_utf8_len_concat(out + w, o.skip((out + w).len() as int));
    text::lemma_utf8_len_concat(out, w);
}

/// Annotations within both halves are within their concatenation.
pub proof fn lemma_anns_within_concat(t: Seq<char>, a: Seq<AnnView>, b: Seq<AnnView>)
    requires
        anns_within(t, a),
        anns_within(t, b),
    ensures
        anns_within(t, a + b),
{
    assert forall|k: int| 0 <= k < (a + b).len() implies {
        let x = #[trigger] (a + b)[k];
        &&& x.start < x.end
        &&& x.end <= text::utf8_len(t)
        &&& on_char_boundary(t, x.start as nat)
        &&& on_char_boundary(t, x.end as nat)
    } by {
        if k < a.len() {
            assert((a + b)[k] == a[k]);
        } else {
            assert((a + b)[k] == b[k - a.len()]);
        }
    }
}

} // verus!
