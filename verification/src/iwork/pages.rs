//! Apple Pages: the extractor's description.

use vstd::prelude::*;
use crate::plugins::{ExtractorInfo, InfoView, KreuzbergError, VERSION, make_info, str_views};
use crate::text;
use crate::text::{chars_string, starts_with_str, str_chars};
use crate::types::{Metadata, MetadataView, empty_metadata, strs};
use crate::document::{add_elem, empty_doc, plain, DocView, ElementKind, InternalDocument};
use super::{
    collect_iwa_paths, dedup, dedup_text, extract_metadata_from_zip, file_name, file_name_exec, framed_texts,
    iwa_names, keep, open_failed, read_texts, without, zip_metadata, zip_names, zip_plist_ok,
    zip_plist_well_formed,
};

verus! {

/// Apple Pages document extractor (`.pages`, iWork 2013+).
pub struct PagesExtractor;
impl Default for PagesExtractor {
    fn default() -> (r: Self)
        ensures
            r == PagesExtractor,
    {
        PagesExtractor
    }
}
impl PagesExtractor {
    /// A new extractor.
    pub fn new() -> (r: Self)
        ensures
            r == PagesExtractor,
    {
        PagesExtractor
    }

    /// The extractor's name.
    pub fn name(&self) -> (r: &'static str)
        ensures
            r@ == "iwork-pages-extractor"@,
    {
        "iwork-pages-extractor"
    }

    /// The library version.
    pub fn version(&self) -> (r: String)
        ensures
            r@ == VERSION@,
    {
        VERSION.to_owned()
    }

    /// Prepares the extractor; nothing can fail.
    pub fn initialize(&self) -> (r: Result<(), KreuzbergError>)
        ensures
            r is Ok,
    {
        Ok(())
    }

    /// Releases the extractor; nothing can fail.
    pub fn shutdown(&self) -> (r: Result<(), KreuzbergError>)
        ensures
            r is Ok,
    {
        Ok(())
    }

    /// What the extractor does.
    pub fn description(&self) -> (r: &'static str)
        ensures
            r@ == "Apple Pages (.pages) text extraction via IWA container parser"@,
    {
        "Apple Pages (.pages) text extraction via IWA container parser"
    }

    /// Who wrote the extractor.
    pub fn author(&self) -> (r: &'static str)
        ensures
            r@ == "Kreuzberg Team"@,
    {
        "Kreuzberg Team"
    }

    /// The MIME types the extractor handles.
    pub fn supported_mime_types(&self) -> (r: Vec<&'static str>)
        ensures
            str_views(r@) == seq!["application/x-iwork-pages-sffpages"@],
    {
        let mut v: Vec<&'static str> = Vec::new();
        v.push("application/x-iwork-pages-sffpages");
        assert(str_views(v@) =~= seq!["application/x-iwork-pages-sffpages"@]);
        v
    }

    /// The extractor's priority among those handling the same MIME type.
    pub fn priority(&self) -> (r: i32)
        ensures
            r == 50,
    {
        50
    }

    /// The description the registry keeps of this extractor.
    pub open spec fn descriptor() -> InfoView {
        InfoView { name: "iwork-pages-extractor"@, priority: 50, mime_types: seq!["application/x-iwork-pages-sffpages"@] }
    }

    /// The description the registry keeps.
    pub fn info(&self) -> (r: ExtractorInfo)
        ensures
            r@ == Self::descriptor(),
    {
        let m = self.supported_mime_types();
        make_info(self.name(), self.priority(), m.as_slice())
    }
}

// ---------------------------------------------------------------------------
// Title and heading heuristics
// ---------------------------------------------------------------------------

/// The number of whitespace-separated words.
pub open spec fn word_count(s: Seq<char>) -> nat
    decreases s.len(),
{
    if s.len() == 0 {
        0
    } else {
        word_count(s.drop_last()) + if !text::is_ws(s.last()) && (s.len() == 1 || text::is_ws(
            s[s.len() - 2],
        )) {
            1nat
        } else {
            0nat
        }
    }
}

/// A likely document title: at most 100 bytes, not ending in `.`, `!` or `?`, with
/// a letter, on one line.
pub open spec fn likely_title(s: Seq<char>) -> bool {
    &&& text::utf8_len(s) <= 100
    &&& !(s.len() > 0 && (s.last() == '.' || s.last() == '!' || s.last() == '?'))
    &&& exists|k: int| 0 <= k < s.len() && text::alphabetic(#[trigger] s[k])
    &&& !s.contains('\n')
}

/// A likely heading: at most 80 bytes, not ending in `.` or `,`, on one line,
/// starting with a capital or a digit, of at most ten words.
pub open spec fn likely_heading(s: Seq<char>) -> bool {
    &&& text::utf8_len(s) <= 80
    &&& !(s.len() > 0 && (s.last() == '.' || s.last() == ','))
    &&& !s.contains('\n')
    &&& s.len() > 0 && (text::uppercase(s[0]) || '0' <= s[0] <= '9')
    &&& word_count(s) <= 10
}

/// Whether some character is alphabetic.
fn any_alphabetic(s: &[char]) -> (r: bool)
    ensures
        r == exists|k: int| 0 <= k < s@.len() && text::alphabetic(#[trigger] s@[k]),
{
    let mut k: usize = 0;
    while k < s.len()
        invariant
            k <= s@.len(),
            forall|j: int| 0 <= j < k ==> !text::alphabetic(#[trigger] s@[j]),
        decreases s@.len() - k,
    {
        if text::is_alphabetic(s[k]) {
            return true;
        }
        k = k + 1;
    }
    false
}

/// Whether `s` holds a line break.
fn has_newline(s: &[char]) -> (r: bool)
    ensures
        r == s@.contains('\n'),
{
    let mut k: usize = 0;
    while k < s.len()
        invariant
            k <= s@.len(),
            forall|j: int| 0 <= j < k ==> s@[j] != '\n',
        decreases s@.len() - k,
    {
        if s[k] == '\n' {
            return true;
        }
        k = k + 1;
    }
    false
}

/// The number of whitespace-separated words.
fn count_words(s: &[char]) -> (r: usize)
    ensures
        r == word_count(s@),
{
    let mut n: usize = 0;
    let mut k: usize = 0;
    while k < s.len()
        invariant
            k <= s@.len(),
            n == word_count(s@.take(k as int)),
            n <= k,
        decreases s@.len() - k,
    {
        let starts = !text::is_whitespace(s[k]) && (k == 0 || text::is_whitespace(s[k - 1]));
        assert(s@.take(k + 1).drop_last() =~= s@.take(k as int));
        if starts {
            n = n + 1;
        }
        k = k + 1;
    }
    assert(s@.take(k as int) =~= s@);
    n
}

/// Whether a text string looks like a document title.
pub fn is_likely_title(s: &str) -> (r: bool)
    ensures
        r == likely_title(s@),
{
    let c = str_chars(s);
    let n = text::utf8_len_exec(c.as_slice());
    let last_ok = !(c.len() > 0 && (c[c.len() - 1] == '.' || c[c.len() - 1] == '!' || c[c.len() - 1] == '?'));
    n <= 100 && last_ok && any_alphabetic(c.as_slice()) && !has_newline(c.as_slice())
}

/// Whether a text string looks like a heading.
pub fn is_likely_heading(s: &str) -> (r: bool)
    ensures
        r == likely_heading(s@),
{
    let c = str_chars(s);
    let n = text::utf8_len_exec(c.as_slice());
    let last_ok = !(c.len() > 0 && (c[c.len() - 1] == '.' || c[c.len() - 1] == ','));
    n <= 80 && last_ok && !has_newline(c.as_slice()) && c.len() > 0 && (text::is_uppercase(c[0]) || ('0'
        <= c[0] && c[0] <= '9')) && count_words(c.as_slice()) <= 10
}

// ---------------------------------------------------------------------------
// Reading a Pages archive
// ---------------------------------------------------------------------------

/// An IWA entry of the document body (`Document*`, `Section*`, `Text*`).
pub open spec fn body_path(p: Seq<char>) -> bool {
    let f = file_name(p);
    text::starts_with(f, "Document"@) || text::starts_with(f, "Section"@) || text::starts_with(f, "Text"@)
}

/// The body entries and the others; all entries are body entries when none is.
pub open spec fn pages_parts(paths: Seq<Seq<char>>) -> (Seq<Seq<char>>, Seq<Seq<char>>) {
    let d = keep(paths, |p: Seq<char>| body_path(p));
    if d.len() == 0 {
        (paths, seq![])
    } else {
        (d, keep(paths, |p: Seq<char>| !body_path(p)))
    }
}

/// Text blocks of a Pages document: body text, annotation and data-record text
/// not already in the body, and the archive's metadata.
pub struct PagesData {
    pub document_texts: Vec<String>,
    pub supplementary_texts: Vec<String>,
    pub metadata: Metadata,
}

/// The mathematical value of Pages data.
pub struct PagesView {
    pub doc: Seq<Seq<char>>,
    pub supp: Seq<Seq<char>>,
    pub meta: MetadataView,
}

impl View for PagesData {
    type V = PagesView;

    open spec fn view(&self) -> PagesView {
        PagesView { doc: strs(self.document_texts@), supp: strs(self.supplementary_texts@), meta: self.metadata@ }
    }
}

/// What reading a Pages archive gives.
pub open spec fn spec_parse_pages(content: Seq<u8>) -> Result<PagesView, Seq<char>> {
    match zip_names(content) {
        Err(m) => Err(open_failed(m)),
        Ok(names) => {
            let (d, o) = pages_parts(iwa_names(names));
            let dt = dedup(framed_texts(content, d));
            Ok(
                PagesView {
                    doc: dt,
                    supp: keep(dedup(framed_texts(content, o)), |t: Seq<char>| !dt.contains(t)),
                    meta: zip_metadata(content),
                },
            )
        },
    }
}

/// Splits paths into body entries and others.
fn split_pages_paths(paths: &Vec<String>) -> (r: (Vec<String>, Vec<String>))
    ensures
        (strs(r.0@), strs(r.1@)) == pages_parts(strs(paths@)),
{
    let ghost pv = strs(paths@);
    let mut d: Vec<String> = Vec::new();
    let mut o: Vec<String> = Vec::new();
    let mut k: usize = 0;
    assert(pv.take(0) =~= Seq::<Seq<char>>::empty());
    assert(strs(d@) =~= Seq::<Seq<char>>::empty());
    assert(strs(o@) =~= Seq::<Seq<char>>::empty());
    while k < paths.len()
        invariant
            k <= paths@.len(),
            pv == strs(paths@),
            strs(d@) == keep(pv.take(k as int), |p: Seq<char>| body_path(p)),
            strs(o@) == keep(pv.take(k as int), |p: Seq<char>| !body_path(p)),
        decreases paths@.len() - k,
    {
        assert(pv.take(k + 1).drop_last() =~= pv.take(k as int));
        assert(pv.take(k + 1).last() == paths@[k as int]@);
        let c = str_chars(paths[k].as_str());
        let f = file_name_exec(c.as_slice());
        let fs = f.as_slice();
        if starts_with_str(fs, "Document") || starts_with_str(fs, "Section") || starts_with_str(fs, "Text") {
            let ghost before = strs(d@);
            d.push(paths[k].clone());
            assert(strs(d@) =~= before.push(paths@[k as int]@));
        } else {
            let ghost before = strs(o@);
            o.push(paths[k].clone());
            assert(strs(o@) =~= before.push(paths@[k as int]@));
        }
        k = k + 1;
    }
    assert(pv.take(k as int) =~= pv);
    if d.len() == 0 {
        let mut all: Vec<String> = Vec::new();
        let mut m: usize = 0;
        assert(strs(all@) =~= pv.take(0));
        while m < paths.len()
            invariant
                m <= paths@.len(),
                pv == strs(paths@),
                strs(all@) == pv.take(m as int),
            decreases paths@.len() - m,
        {
            let ghost before = strs(all@);
            let c = paths[m].clone();
            all.push(c);
            assert(strs(all@) =~= before.push(c@));
            assert(pv.take(m + 1) =~= pv.take(m as int).push(paths@[m as int]@));
            m = m + 1;
        }
        assert(pv.take(m as int) =~= pv);
        let none: Vec<String> = Vec::new();
        assert(strs(none@) =~= Seq::<Seq<char>>::empty());
        (all, none)
    } else {
        (d, o)
    }
}

/// Reads a Pages archive: body text (deduplicated), the other entries' text not
/// already in the body, and the metadata.
pub(crate) fn parse_pages(content: &[u8]) -> (r: Result<PagesData, KreuzbergError>)
    requires
        zip_plist_ok(content@),
    ensures
        match spec_parse_pages(content@) {
            Ok(v) => r matches Ok(p) && p@ == v,
            Err(m) => r matches Err(KreuzbergError::Parsing(x)) && x@ == m,
        },
{
    let iwa_paths = match collect_iwa_paths(content) {
        Ok(p) => p,
        Err(e) => {
            return Err(e);
        },
    };
    let metadata = extract_metadata_from_zip(content);
    let (doc_paths, other_paths) = split_pages_paths(&iwa_paths);
    let doc_texts = read_texts(content, &doc_paths);
    let other_texts = read_texts(content, &other_paths);
    let document_texts = dedup_text(doc_texts);
    let supplementary_texts = without(dedup_text(other_texts), &document_texts);
    Ok(PagesData { document_texts, supplementary_texts, metadata })
}

/// `d` with each trimmed non-empty text as a heading (level 2) when it looks
/// like one, else as a paragraph.
pub open spec fn add_body(d: DocView, texts: Seq<Seq<char>>) -> DocView
    decreases texts.len(),
{
    if texts.len() == 0 {
        d
    } else {
        let d2 = add_body(d, texts.drop_last());
        let t = text::trim(texts.last());
        if t.len() == 0 {
            d2
        } else if likely_heading(t) {
            add_elem(d2, plain(ElementKind::Heading { level: 2 }, t))
        } else {
            add_elem(d2, plain(ElementKind::Paragraph, t))
        }
    }
}

/// `d` with each trimmed non-empty text as a paragraph.
pub open spec fn add_paragraphs(d: DocView, texts: Seq<Seq<char>>) -> DocView
    decreases texts.len(),
{
    if texts.len() == 0 {
        d
    } else {
        let d2 = add_paragraphs(d, texts.drop_last());
        let t = text::trim(texts.last());
        if t.len() == 0 {
            d2
        } else {
            add_elem(d2, plain(ElementKind::Paragraph, t))
        }
    }
}

/// The metadata is kept when it has a title or authors.
pub open spec fn with_metadata(d: DocView, m: MetadataView) -> DocView {
    if m.title is Some || m.authors is Some {
        DocView { meta: m, ..d }
    } else {
        d
    }
}

/// The document of Pages data: a short first block as title (when more follow),
/// the body with heading detection, and the other text under "Annotations".
pub open spec fn pages_doc(v: PagesView) -> DocView {
    let d1 = with_metadata(empty_doc(), v.meta);
    let texts = v.doc;
    let titled = texts.len() > 1 && text::trim(texts[0]).len() > 0 && likely_title(text::trim(texts[0]));
    let d2 = if titled {
        add_elem(d1, plain(ElementKind::Title, text::trim(texts[0])))
    } else {
        d1
    };
    let d3 = add_body(d2, if titled {
        texts.skip(1)
    } else {
        texts
    });
    if v.supp.len() > 0 {
        let d4 = if v.doc.len() > 0 {
            add_elem(d3, plain(ElementKind::Heading { level: 2 }, "Annotations"@))
        } else {
            d3
        };
        add_paragraphs(d4, v.supp)
    } else {
        d3
    }
}

/// Adds the trimmed non-empty texts from `start` on, with heading detection when
/// `detect`.
pub fn push_texts(doc: &mut InternalDocument, texts: &[String], start: usize, detect: bool)
    requires
        start <= texts@.len(),
    ensures
        final(doc)@ == (if detect {
            add_body(old(doc)@, strs(texts@).skip(start as int))
        } else {
            add_paragraphs(old(doc)@, strs(texts@).skip(start as int))
        }),
        final(doc).source_format == old(doc).source_format,
        final(doc).mime_type == old(doc).mime_type,
{
    let ghost tv = strs(texts@).skip(start as int);
    let ghost d0 = doc@;
    let mut k: usize = 0;
    assert(tv.take(0) =~= Seq::<Seq<char>>::empty());
    while k < texts.len() - start
        invariant
            start <= texts@.len(),
            k <= texts@.len() - start,
            tv == strs(texts@).skip(start as int),
            doc@ == (if detect {
                add_body(d0, tv.take(k as int))
            } else {
                add_paragraphs(d0, tv.take(k as int))
            }),
            doc.source_format == old(doc).source_format,
            doc.mime_type == old(doc).mime_type,
        decreases texts@.len() - start - k,
    {
        assert(tv.take(k + 1).drop_last() =~= tv.take(k as int));
        assert(tv.take(k + 1).last() == texts@[start + k]@);
        let c = str_chars(texts[start + k].as_str());
        let t = text::trim_vec(c.as_slice());
        if t.len() > 0 {
            let ts = chars_string(t.as_slice());
            if detect && is_likely_heading(ts.as_str()) {
                doc.push_plain(ElementKind::Heading { level: 2 }, t.as_slice());
            } else {
                doc.push_plain(ElementKind::Paragraph, t.as_slice());
            }
        }
        k = k + 1;
    }
    assert(tv.take(k as int) =~= tv);
}

/// Sets the metadata when it has a title or authors.
pub fn apply_metadata(doc: &mut InternalDocument, m: &Metadata)
    ensures
        final(doc)@ == with_metadata(old(doc)@, m@),
        final(doc).source_format == old(doc).source_format,
        final(doc).mime_type == old(doc).mime_type,
{
    if m.title.is_some() || m.authors.is_some() {
        doc.set_metadata(m.duplicate());
    }
}

/// The document of Pages data.
pub fn build_pages_internal_document(data: &PagesData) -> (r: InternalDocument)
    ensures
        r@ == pages_doc(data@),
        r.source_format@ == "pages"@,
{
    let mut doc = InternalDocument::new("pages");
    assert(strs(data.document_texts@).skip(0) =~= strs(data.document_texts@));
    assert(strs(data.supplementary_texts@).skip(0) =~= strs(data.supplementary_texts@));
    apply_metadata(&mut doc, &data.metadata);
    let texts = &data.document_texts;
    let mut titled = false;
    if texts.len() > 1 {
        let c = str_chars(texts[0].as_str());
        let t = text::trim_vec(c.as_slice());
        let ts = chars_string(t.as_slice());
        if t.len() > 0 && is_likely_title(ts.as_str()) {
            doc.push_plain(ElementKind::Title, t.as_slice());
            titled = true;
        }
    }
    if titled {
        push_texts(&mut doc, texts.as_slice(), 1, true);
    } else {
        push_texts(&mut doc, texts.as_slice(), 0, true);
    }
    if data.supplementary_texts.len() > 0 {
        if data.document_texts.len() > 0 {
            let h = str_chars("Annotations");
            doc.push_plain(ElementKind::Heading { level: 2 }, h.as_slice());
        }
        push_texts(&mut doc, data.supplementary_texts.as_slice(), 0, false);
    }
    doc
}

impl PagesExtractor {
    /// Extracts a Pages document: its body text with title and heading detection,
    /// annotation text, and metadata.
    pub fn extract_bytes(&self, content: &[u8], mime_type: &str) -> (r: Result<InternalDocument, KreuzbergError>)
        requires
            zip_plist_ok(content@),
        ensures
            match spec_parse_pages(content@) {
                Ok(v) => r matches Ok(d) && d@ == pages_doc(v) && d.mime_type@ == mime_type@,
                Err(m) => r matches Err(KreuzbergError::Parsing(x)) && x@ == m,
            },
    {
        let data = match parse_pages(content) {
            Ok(d) => d,
            Err(e) => {
                return Err(e);
            },
        };
        let mut doc = build_pages_internal_document(&data);
        doc.mime_type = mime_type.to_owned();
        Ok(doc)
    }

    /// `extract_bytes` when the archive's plist metadata is readable; `None`
    /// otherwise.
    pub fn try_extract_bytes(&self, content: &[u8], mime_type: &str) -> (r: Option<Result<InternalDocument, KreuzbergError>>)
        ensures
            !zip_plist_ok(content@) ==> r is None,
            zip_plist_ok(content@) ==> (r matches Some(x) && match spec_parse_pages(content@) {
                Ok(v) => x matches Ok(d) && d@ == pages_doc(v) && d.mime_type@ == mime_type@,
                Err(m) => x matches Err(KreuzbergError::Parsing(e)) && e@ == m,
            }),
    {
        if zip_plist_well_formed(content) {
            Some(self.extract_bytes(content, mime_type))
        } else {
            None
        }
    }
}

} // verus!
