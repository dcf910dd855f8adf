//! The values extractors produce: tables, metadata and text annotations.

use vstd::prelude::*;
use crate::text;

verus! {

/// The views of a sequence of strings.
pub open spec fn strs(v: Seq<String>) -> Seq<Seq<char>> {
    v.map_values(|x: String| x@)
}

/// The view of an optional string.
pub open spec fn opt_str(o: Option<String>) -> Option<Seq<char>> {
    match o {
        Some(s) => Some(s@),
        None => None,
    }
}

/// The view of an optional list of strings.
pub open spec fn opt_strs(o: Option<Vec<String>>) -> Option<Seq<Seq<char>>> {
    match o {
        Some(v) => Some(strs(v@)),
        None => None,
    }
}

/// The views of rows of string cells.
pub open spec fn rows_view(v: Seq<Vec<String>>) -> Seq<Seq<Seq<char>>> {
    v.map_values(|r: Vec<String>| strs(r@))
}

/// A table: its cells row by row, its Markdown rendering and its page.
#[derive(Clone, Debug, PartialEq)]
pub struct Table {
    pub cells: Vec<Vec<String>>,
    pub markdown: String,
    pub page_number: usize,
}

/// The mathematical value of a table.
pub struct TableView {
    pub cells: Seq<Seq<Seq<char>>>,
    pub markdown: Seq<char>,
    pub page_number: nat,
}

impl View for Table {
    type V = TableView;

    open spec fn view(&self) -> TableView {
        TableView {
            cells: rows_view(self.cells@),
            markdown: self.markdown@,
            page_number: self.page_number as nat,
        }
    }
}

/// The views of a sequence of tables.
pub open spec fn tables_view(v: Seq<Table>) -> Seq<TableView> {
    v.map_values(|t: Table| t@)
}

/// An image found in a document: its bytes, its format (`png`, `jpeg`, a MIME
/// type, ...), its index among the document's images, the page it is on, a
/// description, and the path it had inside the source file.
#[derive(Clone, Debug, PartialEq, Eq)]
pub struct ExtractedImage {
    pub data: Vec<u8>,
    pub format: String,
    pub image_index: usize,
    pub page_number: Option<usize>,
    pub description: Option<String>,
    pub source_path: Option<String>,
}

/// The mathematical value of an image.
pub struct ImageView {
    pub data: Seq<u8>,
    pub format: Seq<char>,
    pub image_index: usize,
    pub page_number: Option<usize>,
    pub description: Option<Seq<char>>,
    pub source_path: Option<Seq<char>>,
}

impl View for ExtractedImage {
    type V = ImageView;

    open spec fn view(&self) -> ImageView {
        ImageView {
            data: self.data@,
            format: self.format@,
            image_index: self.image_index,
            page_number: self.page_number,
            description: opt_str(self.description),
            source_path: opt_str(self.source_path),
        }
    }
}

/// The views of a sequence of images.
pub open spec fn images_view(v: Seq<ExtractedImage>) -> Seq<ImageView> {
    v.map_values(|i: ExtractedImage| i@)
}

/// The kind of an inline annotation.
#[derive(Clone, Debug, PartialEq, Eq)]
pub enum AnnotationKind {
    Bold,
    Italic,
    Underline,
    Code,
    Strikethrough,
    Subscript,
    Superscript,
    Link { url: String, title: Option<String> },
    Color { value: String },
    FontSize { value: String },
}

/// The mathematical value of an annotation kind.
pub enum KindView {
    Bold,
    Italic,
    Underline,
    Code,
    Strikethrough,
    Subscript,
    Superscript,
    Link { url: Seq<char>, title: Option<Seq<char>> },
    Color { value: Seq<char> },
    FontSize { value: Seq<char> },
}

impl View for AnnotationKind {
    type V = KindView;

    open spec fn view(&self) -> KindView {
        match self {
            AnnotationKind::Bold => KindView::Bold,
            AnnotationKind::Italic => KindView::Italic,
            AnnotationKind::Underline => KindView::Underline,
            AnnotationKind::Code => KindView::Code,
            AnnotationKind::Strikethrough => KindView::Strikethrough,
            AnnotationKind::Subscript => KindView::Subscript,
            AnnotationKind::Superscript => KindView::Superscript,
            AnnotationKind::Link { url, title } => KindView::Link { url: url@, title: opt_str(*title) },
            AnnotationKind::Color { value } => KindView::Color { value: value@ },
            AnnotationKind::FontSize { value } => KindView::FontSize { value: value@ },
        }
    }
}

/// An annotation over the byte range `start..end` of a text.
#[derive(Clone, Debug, PartialEq, Eq)]
pub struct TextAnnotation {
    pub start: u32,
    pub end: u32,
    pub kind: AnnotationKind,
}

/// The mathematical value of an annotation.
pub struct AnnView {
    pub start: u32,
    pub end: u32,
    pub kind: KindView,
}

impl View for TextAnnotation {
    type V = AnnView;

    open spec fn view(&self) -> AnnView {
        AnnView { start: self.start, end: self.end, kind: self.kind@ }
    }
}

/// The views of a sequence of annotations.
pub open spec fn anns_view(v: Seq<TextAnnotation>) -> Seq<AnnView> {
    v.map_values(|a: TextAnnotation| a@)
}

/// Document metadata.
#[derive(Clone, Debug, PartialEq)]
pub struct Metadata {
    pub title: Option<String>,
    pub subject: Option<String>,
    pub created_by: Option<String>,
    pub created_at: Option<String>,
    pub authors: Option<Vec<String>>,
    pub keywords: Option<Vec<String>>,
    pub language: Option<String>,
    pub abstract_text: Option<String>,
    pub category: Option<String>,
    pub tags: Option<Vec<String>>,
    pub document_version: Option<String>,
    /// Further key/value pairs, each key at most once, in insertion order.
    pub additional: Vec<(String, String)>,
}

/// The mathematical value of metadata.
pub struct MetadataView {
    pub title: Option<Seq<char>>,
    pub subject: Option<Seq<char>>,
    pub created_by: Option<Seq<char>>,
    pub created_at: Option<Seq<char>>,
    pub authors: Option<Seq<Seq<char>>>,
    pub keywords: Option<Seq<Seq<char>>>,
    pub language: Option<Seq<char>>,
    pub abstract_text: Option<Seq<char>>,
    pub category: Option<Seq<char>>,
    pub tags: Option<Seq<Seq<char>>>,
    pub document_version: Option<Seq<char>>,
    pub additional: Seq<(Seq<char>, Seq<char>)>,
}

/// The views of key/value pairs.
pub open spec fn pairs_view(v: Seq<(String, String)>) -> Seq<(Seq<char>, Seq<char>)> {
    v.map_values(|p: (String, String)| (p.0@, p.1@))
}

impl View for Metadata {
    type V = MetadataView;

    open spec fn view(&self) -> MetadataView {
        MetadataView {
            title: opt_str(self.title),
            subject: opt_str(self.subject),
            created_by: opt_str(self.created_by),
            created_at: opt_str(self.created_at),
            authors: opt_strs(self.authors),
            keywords: opt_strs(self.keywords),
            language: opt_str(self.language),
            abstract_text: opt_str(self.abstract_text),
            category: opt_str(self.category),
            tags: opt_strs(self.tags),
            document_version: opt_str(self.document_version),
            additional: pairs_view(self.additional@),
        }
    }
}

/// Metadata with nothing set.
pub open spec fn empty_metadata() -> MetadataView {
    MetadataView {
        title: None,
        subject: None,
        created_by: None,
        created_at: None,
        authors: None,
        keywords: None,
        language: None,
        abstract_text: None,
        category: None,
        tags: None,
        document_version: None,
        additional: seq![],
    }
}

/// `pairs` with `key` bound to `value`: an existing entry for `key` is replaced in
/// place, otherwise the pair is appended.
pub open spec fn assoc_insert(pairs: Seq<(Seq<char>, Seq<char>)>, key: Seq<char>, value: Seq<char>) -> Seq<(Seq<char>, Seq<char>)>
    decreases pairs.len(),
{
    if pairs.len() == 0 {
        seq![(key, value)]
    } else if pairs[0].0 == key {
        seq![(key, value)] + pairs.drop_first()
    } else {
        seq![pairs[0]] + assoc_insert(pairs.drop_first(), key, value)
    }
}

/// The value bound to `key` in `pairs`.
pub open spec fn assoc_get(pairs: Seq<(Seq<char>, Seq<char>)>, key: Seq<char>) -> Option<Seq<char>>
    decreases pairs.len(),
{
    if pairs.len() == 0 {
        None
    } else if pairs[0].0 == key {
        Some(pairs[0].1)
    } else {
        assoc_get(pairs.drop_first(), key)
    }
}

/// After binding `key`, looking it up gives the new value and other keys are unchanged.
pub proof fn lemma_assoc_insert_get(
    pairs: Seq<(Seq<char>, Seq<char>)>,
    key: Seq<char>,
    value: Seq<char>,
    other: Seq<char>,
)
    ensures
        assoc_get(assoc_insert(pairs, key, value), key) == Some(value),
        other != key ==> assoc_get(assoc_insert(pairs, key, value), other) == assoc_get(
            pairs,
            other,
        ),
    decreases pairs.len(),
{
    let e = Seq::<(Seq<char>, Seq<char>)>::empty();
    if pairs.len() == 0 {
        assert(seq![(key, value)].drop_first() =~= e);
        assert(assoc_get(e, other) is None);
    } else if pairs[0].0 == key {
        assert((seq![(key, value)] + pairs.drop_first()).drop_first() =~= pairs.drop_first());
    } else {
        lemma_assoc_insert_get(pairs.drop_first(), key, value, other);
        assert((seq![pairs[0]] + assoc_insert(pairs.drop_first(), key, value)).drop_first()
            =~= assoc_insert(pairs.drop_first(), key, value));
    }
}

/// A copy of an optional string.
pub fn copy_opt_str(o: &Option<String>) -> (r: Option<String>)
    ensures
        opt_str(r) == opt_str(*o),
{
    match o {
        Some(s) => Some(s.clone()),
        None => None,
    }
}

/// A copy of a list of strings.
pub fn copy_strs(v: &Vec<String>) -> (r: Vec<String>)
    ensures
        strs(r@) == strs(v@),
{
    let mut r: Vec<String> = Vec::new();
    let mut k: usize = 0;
    while k < v.len()
        invariant
            k <= v@.len(),
            strs(r@) == strs(v@).take(k as int),
        decreases v@.len() - k,
    {
        let c = v[k].clone();
        let ghost before = strs(r@);
        r.push(c);
        assert(strs(r@) =~= before.push(c@));
        assert(strs(v@).take(k + 1) =~= strs(v@).take(k as int).push(v@[k as int]@));
        k = k + 1;
    }
    assert(strs(v@).take(k as int) =~= strs(v@));
    r
}

/// A copy of an optional list of strings.
pub fn copy_opt_strs(o: &Option<Vec<String>>) -> (r: Option<Vec<String>>)
    ensures
        opt_strs(r) == opt_strs(*o),
{
    match o {
        Some(v) => Some(copy_strs(v)),
        None => None,
    }
}

impl Metadata {
    /// A copy of this metadata.
    pub fn duplicate(&self) -> (r: Metadata)
        ensures
            r@ == self@,
    {
        let mut additional: Vec<(String, String)> = Vec::new();
        let mut k: usize = 0;
        while k < self.additional.len()
            invariant
                k <= self.additional@.len(),
                pairs_view(additional@) == pairs_view(self.additional@).take(k as int),
            decreases self.additional@.len() - k,
        {
            let p = (self.additional[k].0.clone(), self.additional[k].1.clone());
            let ghost before = pairs_view(additional@);
            additional.push(p);
            assert(pairs_view(additional@) =~= before.push((p.0@, p.1@)));
            assert(pairs_view(self.additional@).take(k + 1) =~= pairs_view(self.additional@).take(k as int).push(
                (self.additional@[k as int].0@, self.additional@[k as int].1@),
            ));
            k = k + 1;
        }
        assert(pairs_view(self.additional@).take(k as int) =~= pairs_view(self.additional@));
        Metadata {
            title: copy_opt_str(&self.title),
            subject: copy_opt_str(&self.subject),
            created_by: copy_opt_str(&self.created_by),
            created_at: copy_opt_str(&self.created_at),
            authors: copy_opt_strs(&self.authors),
            keywords: copy_opt_strs(&self.keywords),
            language: copy_opt_str(&self.language),
            abstract_text: copy_opt_str(&self.abstract_text),
            category: copy_opt_str(&self.category),
            tags: copy_opt_strs(&self.tags),
            document_version: copy_opt_str(&self.document_version),
            additional,
        }
    }

    /// Metadata with nothing set.
    pub fn new() -> (m: Metadata)
        ensures
            m@ == empty_metadata(),
    {
        let m = Metadata {
            title: None,
            subject: None,
            created_by: None,
            created_at: None,
            authors: None,
            keywords: None,
            language: None,
            abstract_text: None,
            category: None,
            tags: None,
            document_version: None,
            additional: Vec::new(),
        };
        assert(m@.additional =~= seq![]);
        m
    }

    /// Binds `key` to `value` among the additional entries.
    pub fn insert_additional(&mut self, key: String, value: String)
        ensures
            final(self)@ == (MetadataView {
                additional: assoc_insert(old(self)@.additional, key@, value@),
                ..old(self)@
            }),
    {
        let ghost old_pairs = pairs_view(self.additional@);
        let mut i: usize = 0;
        let n = self.additional.len();
        assert(old_pairs.skip(0) =~= old_pairs);
        assert(old_pairs.take(0) + assoc_insert(old_pairs, key@, value@) =~= assoc_insert(old_pairs, key@, value@));
        while i < n
            invariant
                i <= n == self.additional@.len(),
                pairs_view(self.additional@) == old_pairs,
                forall|j: int| 0 <= j < i ==> old_pairs[j].0 != key@,
                assoc_insert(old_pairs, key@, value@) == old_pairs.take(i as int) + assoc_insert(
                    old_pairs.skip(i as int),
                    key@,
                    value@,
                ),
                self.title == old(self).title,
                self.subject == old(self).subject,
                self.created_by == old(self).created_by,
                self.created_at == old(self).created_at,
                self.authors == old(self).authors,
                self.keywords == old(self).keywords,
                self.language == old(self).language,
                self.abstract_text == old(self).abstract_text,
                self.category == old(self).category,
                self.tags == old(self).tags,
                self.document_version == old(self).document_version,
                old_pairs == pairs_view(old(self).additional@),
            decreases n - i,
        {
            let ghost rest = old_pairs.skip(i as int);
            if text::str_eq(self.additional[i].0.as_str(), key.as_str()) {
                let ghost before = self.additional@;
                self.additional.set(i, (key, value));
                proof {
                    assert(rest[0].0 == key@);
                    assert(rest.drop_first() =~= old_pairs.skip(i + 1));
                    assert(pairs_view(self.additional@) =~= old_pairs.take(i as int) + assoc_insert(
                        rest,
                        key@,
                        value@,
                    ));
                }
                return;
            }
            proof {
                assert(rest[0] == old_pairs[i as int]);
                assert(rest.drop_first() =~= old_pairs.skip(i + 1));
                assert(old_pairs.take(i as int) + assoc_insert(rest, key@, value@) =~= old_pairs.take(
                    i + 1,
                ) + assoc_insert(old_pairs.skip(i + 1), key@, value@));
            }
            i = i + 1;
        }
        let ghost before = self.additional@;
        self.additional.push((key, value));
        proof {
            assert(old_pairs.skip(i as int) =~= Seq::<(Seq<char>, Seq<char>)>::empty());
            assert(old_pairs.take(i as int) =~= old_pairs);
            assert(pairs_view(self.additional@) =~= old_pairs + seq![(key@, value@)]);
        }
    }

    /// The value bound to `key` among the additional entries.
    pub fn additional_get(&self, key: &str) -> (r: Option<String>)
        ensures
            opt_str(r) == assoc_get(self@.additional, key@),
    {
        let ghost ps = pairs_view(self.additional@);
        let mut i: usize = 0;
        assert(ps.skip(0) =~= ps);
        while i < self.additional.len()
            invariant
                i <= self.additional@.len(),
                ps == pairs_view(self.additional@),
                assoc_get(ps, key@) == assoc_get(ps.skip(i as int), key@),
            decreases self.additional@.len() - i,
        {
            proof {
                assert(ps.skip(i as int).drop_first() =~= ps.skip(i + 1));
            }
            if text::str_eq(self.additional[i].0.as_str(), key) {
                return Some(self.additional[i].1.clone());
            }
            i = i + 1;
        }
        None
    }
}

} // verus!
