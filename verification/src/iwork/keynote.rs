//! Apple Keynote: the extractor's description.

use vstd::prelude::*;
use crate::plugins::{ExtractorInfo, InfoView, KreuzbergError, VERSION, make_info, str_views};
use crate::text;
use crate::text::{chars_string, starts_with_str, str_chars};
use crate::types::{Metadata, MetadataView, strs};
use crate::hwp::as_u32;
use crate::document::{add_elem, empty_doc, plain, DocView, ElementKind, InternalDocument};
use super::pages::{add_paragraphs, apply_metadata, push_texts, with_metadata};
use super::{
    collect_iwa_paths, contains_string, dedup, dedup_text, extend_strings, extract_metadata_from_zip,
    extract_text_from_proto, file_name, file_name_exec, framed_texts, iwa_file, iwa_names, keep, open_failed,
    proto_texts, read_iwa_file, read_texts, zip_metadata, zip_names, zip_plist_ok, zip_plist_well_formed,
};

verus! {

/// Apple Keynote presentation extractor (`.key`, iWork 2013+).
pub struct KeynoteExtractor;
impl Default for KeynoteExtractor {
    fn default() -> (r: Self)
        ensures
            r == KeynoteExtractor,
    {
        KeynoteExtractor
    }
}
impl KeynoteExtractor {
    /// A new extractor.
    pub fn new() -> (r: Self)
        ensures
            r == KeynoteExtractor,
    {
        KeynoteExtractor
    }

    /// The extractor's name.
    pub fn name(&self) -> (r: &'static str)
        ensures
            r@ == "iwork-keynote-extractor"@,
    {
        "iwork-keynote-extractor"
    }

    /// The library version.
    pub fn version(&self) -> (r: String)
        ensures
            r@ == VERSION@,
    {
        VERSION.to_owned()
    }

    /// Prepares the extractor; nothing can fail.
    pub fn initialize(&self) -> (r: Result<(), KreuzbergError>)
        ensures
            r is Ok,
    {
        Ok(())
    }

    /// Releases the extractor; nothing can fail.
    pub fn shutdown(&self) -> (r: Result<(), KreuzbergError>)
        ensures
            r is Ok,
    {
        Ok(())
    }

    /// What the extractor does.
    pub fn description(&self) -> (r: &'static str)
        ensures
            r@ == "Apple Keynote (.key) text extraction via IWA container parser"@,
    {
        "Apple Keynote (.key) text extraction via IWA container parser"
    }

    /// Who wrote the extractor.
    pub fn author(&self) -> (r: &'static str)
        ensures
            r@ == "Kreuzberg Team"@,
    {
        "Kreuzberg Team"
    }

    /// The MIME types the extractor handles.
    pub fn supported_mime_types(&self) -> (r: Vec<&'static str>)
        ensures
            str_views(r@) == seq!["application/x-iwork-keynote-sffkey"@],
    {
        let mut v: Vec<&'static str> = Vec::new();
        v.push("application/x-iwork-keynote-sffkey");
        assert(str_views(v@) =~= seq!["application/x-iwork-keynote-sffkey"@]);
        v
    }

    /// The extractor's priority among those handling the same MIME type.
    pub fn priority(&self) -> (r: i32)
        ensures
            r == 50,
    {
        50
    }

    /// The description the registry keeps of this extractor.
    pub open spec fn descriptor() -> InfoView {
        InfoView { name: "iwork-keynote-extractor"@, priority: 50, mime_types: seq!["application/x-iwork-keynote-sffkey"@] }
    }

    /// The description the registry keeps.
    pub fn info(&self) -> (r: ExtractorInfo)
        ensures
            r@ == Self::descriptor(),
    {
        let m = self.supported_mime_types();
        make_info(self.name(), self.priority(), m.as_slice())
    }
}

// ---------------------------------------------------------------------------
// Ordering paths
// ---------------------------------------------------------------------------

/// `a` comes no later than `b` in the order of `String` (byte-wise, which for
/// UTF-8 is the order of code points).
pub open spec fn str_le(a: Seq<char>, b: Seq<char>) -> bool
    decreases a.len(),
{
    if a.len() == 0 {
        true
    } else if b.len() == 0 {
        false
    } else if a[0] != b[0] {
        (a[0] as u32) < (b[0] as u32)
    } else {
        str_le(a.drop_first(), b.drop_first())
    }
}

/// Whether `a` comes no later than `b`.
fn str_le_exec(a: &[char], b: &[char]) -> (r: bool)
    ensures
        r == str_le(a@, b@),
{
    let mut k: usize = 0;
    assert(a@.skip(0) =~= a@);
    assert(b@.skip(0) =~= b@);
    while k < a.len() && k < b.len() && a[k] == b[k]
        invariant
            k <= a@.len(),
            k <= b@.len(),
            str_le(a@, b@) == str_le(a@.skip(k as int), b@.skip(k as int)),
        decreases a@.len() - k,
    {
        assert(a@.skip(k as int).drop_first() =~= a@.skip(k + 1));
        assert(b@.skip(k as int).drop_first() =~= b@.skip(k + 1));
        k = k + 1;
    }
    if k == a.len() {
        true
    } else if k == b.len() {
        false
    } else {
        (a[k] as u32) < (b[k] as u32)
    }
}

/// Whether `a` comes no later than `b`.
fn str_le_str(a: &str, b: &str) -> (r: bool)
    ensures
        r == str_le(a@, b@),
{
    let ac = str_chars(a);
    let bc = str_chars(b);
    str_le_exec(ac.as_slice(), bc.as_slice())
}

/// `x` placed after the last string of `sorted` that comes no later than it.
pub open spec fn insert_str(sorted: Seq<Seq<char>>, x: Seq<char>) -> Seq<Seq<char>>
    decreases sorted.len(),
{
    if sorted.len() == 0 {
        seq![x]
    } else if str_le(sorted.last(), x) {
        sorted.push(x)
    } else {
        insert_str(sorted.drop_last(), x).push(sorted.last())
    }
}

/// The strings in ascending order.
pub open spec fn sort_strs(s: Seq<Seq<char>>) -> Seq<Seq<char>>
    decreases s.len(),
{
    if s.len() == 0 {
        seq![]
    } else {
        insert_str(sort_strs(s.drop_last()), s.last())
    }
}

/// Where `insert_str` puts `x`.
pub open spec fn insert_str_pos(sorted: Seq<Seq<char>>, x: Seq<char>) -> nat
    decreases sorted.len(),
{
    if sorted.len() == 0 || str_le(sorted.last(), x) {
        sorted.len()
    } else {
        insert_str_pos(sorted.drop_last(), x)
    }
}

proof fn lemma_insert_str(sorted: Seq<Seq<char>>, x: Seq<char>)
    ensures
        insert_str_pos(sorted, x) <= sorted.len(),
        insert_str(sorted, x) == sorted.insert(insert_str_pos(sorted, x) as int, x),
        forall|k: int| insert_str_pos(sorted, x) <= k < sorted.len() ==> !str_le(#[trigger] sorted[k], x),
        insert_str_pos(sorted, x) > 0 ==> str_le(sorted[insert_str_pos(sorted, x) - 1], x),
    decreases sorted.len(),
{
    if sorted.len() == 0 {
        assert(seq![x] =~= sorted.insert(0, x));
    } else if str_le(sorted.last(), x) {
        assert(sorted.push(x) =~= sorted.insert(sorted.len() as int, x));
    } else {
        let front = sorted.drop_last();
        lemma_insert_str(front, x);
        let p = insert_str_pos(front, x);
        assert(insert_str(front, x).push(sorted.last()) =~= sorted.insert(p as int, x));
        assert forall|k: int| p <= k < sorted.len() implies !str_le(#[trigger] sorted[k], x) by {
            if k < sorted.len() - 1 {
                assert(sorted[k] == front[k]);
            }
        }
        if p > 0 {
            assert(sorted[p - 1] == front[p - 1]);
        }
    }
}

/// The strings in ascending order.
fn sort_strings(v: &Vec<String>) -> (r: Vec<String>)
    ensures
        strs(r@) == sort_strs(strs(v@)),
{
    let ghost sv = strs(v@);
    let mut sorted: Vec<String> = Vec::new();
    let mut k: usize = 0;
    assert(strs(sorted@) =~= sort_strs(sv.take(0)));
    while k < v.len()
        invariant
            k <= v@.len(),
            sv == strs(v@),
            strs(sorted@) == sort_strs(sv.take(k as int)),
        decreases v@.len() - k,
    {
        let x = v[k].clone();
        proof {
            lemma_insert_str(strs(sorted@), x@);
            assert(sv.take(k + 1).drop_last() =~= sv.take(k as int));
            assert(sv.take(k + 1).last() == x@);
        }
        let mut p = sorted.len();
        while p > 0 && !str_le_str(sorted[p - 1].as_str(), x.as_str())
            invariant
                p <= sorted@.len(),
                insert_str_pos(strs(sorted@), x@) <= sorted@.len(),
                forall|j: int| insert_str_pos(strs(sorted@), x@) <= j < sorted@.len() ==> !str_le(
                    #[trigger] strs(sorted@)[j],
                    x@,
                ),
                insert_str_pos(strs(sorted@), x@) > 0 ==> str_le(
                    strs(sorted@)[insert_str_pos(strs(sorted@), x@) - 1],
                    x@,
                ),
                insert_str_pos(strs(sorted@), x@) <= p,
            decreases p,
        {
            assert(strs(sorted@)[p - 1] == sorted@[p - 1]@);
            p = p - 1;
        }
        if p > 0 {
            assert(strs(sorted@)[p - 1] == sorted@[p - 1]@);
        }
        assert(p == insert_str_pos(strs(sorted@), x@));
        let ghost before = strs(sorted@);
        sorted.insert(p, x);
        assert(strs(sorted@) =~= before.insert(p as int, x@));
        k = k + 1;
    }
    assert(sv.take(k as int) =~= sv);
    sorted
}

// ---------------------------------------------------------------------------
// Reading a Keynote archive
// ---------------------------------------------------------------------------

/// An IWA entry of a slide: its file name starts with `Slide` (master slides
/// excluded).
pub open spec fn slide_path(p: Seq<char>) -> bool {
    let f = file_name(p);
    text::starts_with(f, "Slide"@) && !text::starts_with(f, "MasterSlide"@)
}

/// The strings of `texts` not in `seen`, each once, and `seen` with them added.
pub open spec fn fresh(texts: Seq<Seq<char>>, seen: Seq<Seq<char>>) -> (Seq<Seq<char>>, Seq<Seq<char>>)
    decreases texts.len(),
{
    if texts.len() == 0 {
        (seq![], seen)
    } else {
        let (u, s2) = fresh(texts.drop_last(), seen);
        if s2.contains(texts.last()) {
            (u, s2)
        } else {
            (u.push(texts.last()), s2.push(texts.last()))
        }
    }
}

/// The slides of the slide entries `paths`: per entry that reads, its strings not
/// seen on an earlier slide, when there are any.
pub open spec fn slide_fold(content: Seq<u8>, paths: Seq<Seq<char>>, seen: Seq<Seq<char>>) -> (
    Seq<Seq<Seq<char>>>,
    Seq<Seq<char>>,
)
    decreases paths.len(),
{
    if paths.len() == 0 {
        (seq![], seen)
    } else {
        let (slides, s2) = slide_fold(content, paths.drop_last(), seen);
        match iwa_file(content, paths.last()) {
            Ok(d) => {
                let (u, s3) = fresh(proto_texts(d), s2);
                (if u.len() > 0 {
                    slides.push(u)
                } else {
                    slides
                }, s3)
            },
            Err(_) => (slides, s2),
        }
    }
}

/// Text of a Keynote presentation: one list of strings per slide, the other
/// entries' strings not on any slide, and the metadata.
pub struct KeynoteData {
    pub slide_texts: Vec<Vec<String>>,
    pub other_texts: Vec<String>,
    pub metadata: Metadata,
}

/// The mathematical value of Keynote data.
pub struct KeynoteView {
    pub slides: Seq<Seq<Seq<char>>>,
    pub other: Seq<Seq<char>>,
    pub meta: MetadataView,
}

impl View for KeynoteData {
    type V = KeynoteView;

    open spec fn view(&self) -> KeynoteView {
        KeynoteView {
            slides: crate::types::rows_view(self.slide_texts@),
            other: strs(self.other_texts@),
            meta: self.metadata@,
        }
    }
}

/// What reading a Keynote archive gives: slides from the slide entries in path
/// order, each string on the first slide it occurs on, then the other entries'
/// strings that no slide holds.
pub open spec fn spec_parse_keynote(content: Seq<u8>) -> Result<KeynoteView, Seq<char>> {
    match zip_names(content) {
        Err(m) => Err(open_failed(m)),
        Ok(names) => {
            let paths = iwa_names(names);
            let sp = sort_strs(keep(paths, |p: Seq<char>| slide_path(p)));
            let op = keep(paths, |p: Seq<char>| !slide_path(p));
            let (slides, seen) = slide_fold(content, sp, seq![]);
            Ok(
                KeynoteView {
                    slides,
                    other: fresh(dedup(framed_texts(content, op)), seen).0,
                    meta: zip_metadata(content),
                },
            )
        },
    }
}

/// No string occurs twice.
pub open spec fn all_distinct(s: Seq<Seq<char>>) -> bool {
    forall|i: int, j: int| 0 <= i < j < s.len() ==> s[i] != s[j]
}

/// The strings of the slides, slide after slide.
pub open spec fn slide_strings(slides: Seq<Seq<Seq<char>>>) -> Seq<Seq<char>>
    decreases slides.len(),
{
    if slides.len() == 0 {
        seq![]
    } else {
        slide_strings(slides.drop_last()) + slides.last()
    }
}

proof fn lemma_fresh(texts: Seq<Seq<char>>, seen: Seq<Seq<char>>)
    requires
        all_distinct(seen),
    ensures
        fresh(texts, seen).1 == seen + fresh(texts, seen).0,
        all_distinct(fresh(texts, seen).1),
    decreases texts.len(),
{
    if texts.len() > 0 {
        lemma_fresh(texts.drop_last(), seen);
        let (u, s2) = fresh(texts.drop_last(), seen);
        let x = texts.last();
        if !s2.contains(x) {
            assert(s2.push(x) =~= seen + u.push(x));
            assert forall|i: int, j: int| 0 <= i < j < s2.push(x).len() implies s2.push(x)[i] != s2.push(x)[j] by {
                if j == s2.len() {
                    assert(s2[i] == s2.push(x)[i]);
                }
            }
        }
    }
}

proof fn lemma_slide_fold(content: Seq<u8>, paths: Seq<Seq<char>>, seen: Seq<Seq<char>>)
    requires
        all_distinct(seen),
    ensures
        slide_fold(content, paths, seen).1 == seen + slide_strings(slide_fold(content, paths, seen).0),
        all_distinct(slide_fold(content, paths, seen).1),
        forall|k: int|
            0 <= k < slide_fold(content, paths, seen).0.len() ==> (#[trigger] slide_fold(content, paths, seen).0[k]).len()
                > 0,
    decreases paths.len(),
{
    if paths.len() == 0 {
        assert(seen + Seq::<Seq<char>>::empty() =~= seen);
    } else {
        lemma_slide_fold(content, paths.drop_last(), seen);
        let (slides, s2) = slide_fold(content, paths.drop_last(), seen);
        match iwa_file(content, paths.last()) {
            Ok(d) => {
                lemma_fresh(proto_texts(d), s2);
                let (u, s3) = fresh(proto_texts(d), s2);
                if u.len() > 0 {
                    assert(slides.push(u).drop_last() =~= slides);
                    assert(s3 =~= seen + slide_strings(slides.push(u)));
                }
            },
            Err(_) => {},
        }
    }
}

/// Reading a Keynote presentation gives no string twice, over all slides and
/// the other strings together, and no slide without strings.
pub proof fn lemma_keynote_strings_distinct(content: Seq<u8>)
    ensures
        spec_parse_keynote(content) matches Ok(v) ==> all_distinct(slide_strings(v.slides) + v.other) && forall|k: int|
            0 <= k < v.slides.len() ==> (#[trigger] v.slides[k]).len() > 0,
{
    match zip_names(content) {
        Err(_) => {},
        Ok(names) => {
            let paths = iwa_names(names);
            let sp = sort_strs(keep(paths, |p: Seq<char>| slide_path(p)));
            let op = keep(paths, |p: Seq<char>| !slide_path(p));
            lemma_slide_fold(content, sp, seq![]);
            let (slides, seen) = slide_fold(content, sp, seq![]);
            assert(seq![] + slide_strings(slides) =~= slide_strings(slides));
            lemma_fresh(dedup(framed_texts(content, op)), seen);
        },
    }
}

/// The strings of `texts` not in `seen`; `seen` gets them.
fn fresh_exec(texts: Vec<String>, seen: &mut Vec<String>) -> (r: Vec<String>)
    ensures
        (strs(r@), strs(final(seen)@)) == fresh(strs(texts@), strs(old(seen)@)),
{
    let ghost tv = strs(texts@);
    let ghost s0 = strs(seen@);
    let mut u: Vec<String> = Vec::new();
    let mut k: usize = 0;
    assert(tv.take(0) =~= Seq::<Seq<char>>::empty());
    assert(strs(u@) =~= Seq::<Seq<char>>::empty());
    while k < texts.len()
        invariant
            k <= texts@.len(),
            tv == strs(texts@),
            (strs(u@), strs(seen@)) == fresh(tv.take(k as int), s0),
        decreases texts@.len() - k,
    {
        assert(tv.take(k + 1).drop_last() =~= tv.take(k as int));
        assert(tv.take(k + 1).last() == texts@[k as int]@);
        if !contains_string(seen, &texts[k]) {
            let a = texts[k].clone();
            let b = texts[k].clone();
            let ghost bu = strs(u@);
            let ghost bs = strs(seen@);
            u.push(a);
            seen.push(b);
            assert(strs(u@) =~= bu.push(texts@[k as int]@));
            assert(strs(seen@) =~= bs.push(texts@[k as int]@));
        }
        k = k + 1;
    }
    assert(tv.take(k as int) =~= tv);
    u
}

/// Splits paths into slide entries and others.
fn split_keynote_paths(paths: &Vec<String>) -> (r: (Vec<String>, Vec<String>))
    ensures
        strs(r.0@) == keep(strs(paths@), |p: Seq<char>| slide_path(p)),
        strs(r.1@) == keep(strs(paths@), |p: Seq<char>| !slide_path(p)),
{
    let ghost pv = strs(paths@);
    let mut sl: Vec<String> = Vec::new();
    let mut o: Vec<String> = Vec::new();
    let mut k: usize = 0;
    assert(pv.take(0) =~= Seq::<Seq<char>>::empty());
    assert(strs(sl@) =~= Seq::<Seq<char>>::empty());
    assert(strs(o@) =~= Seq::<Seq<char>>::empty());
    while k < paths.len()
        invariant
            k <= paths@.len(),
            pv == strs(paths@),
            strs(sl@) == keep(pv.take(k as int), |p: Seq<char>| slide_path(p)),
            strs(o@) == keep(pv.take(k as int), |p: Seq<char>| !slide_path(p)),
        decreases paths@.len() - k,
    {
        assert(pv.take(k + 1).drop_last() =~= pv.take(k as int));
        assert(pv.take(k + 1).last() == paths@[k as int]@);
        let c = str_chars(paths[k].as_str());
        let f = file_name_exec(c.as_slice());
        let p = paths[k].clone();
        if starts_with_str(f.as_slice(), "Slide") && !starts_with_str(f.as_slice(), "MasterSlide") {
            let ghost before = strs(sl@);
            sl.push(p);
            assert(strs(sl@) =~= before.push(paths@[k as int]@));
        } else {
            let ghost before = strs(o@);
            o.push(p);
            assert(strs(o@) =~= before.push(paths@[k as int]@));
        }
        k = k + 1;
    }
    assert(pv.take(k as int) =~= pv);
    (sl, o)
}

/// Reads a Keynote archive into slide texts, other text and metadata.
pub(crate) fn parse_keynote(content: &[u8]) -> (r: Result<KeynoteData, KreuzbergError>)
    requires
        zip_plist_ok(content@),
    ensures
        match spec_parse_keynote(content@) {
            Ok(v) => r matches Ok(p) && p@ == v,
            Err(m) => r matches Err(KreuzbergError::Parsing(x)) && x@ == m,
        },
{
    let iwa_paths = match collect_iwa_paths(content) {
        Ok(p) => p,
        Err(e) => {
            return Err(e);
        },
    };
    let metadata = extract_metadata_from_zip(content);
    let (slide_unsorted, other_paths) = split_keynote_paths(&iwa_paths);
    let slide_paths = sort_strings(&slide_unsorted);
    let ghost spv = strs(slide_paths@);
    let mut seen: Vec<String> = Vec::new();
    let mut slides: Vec<Vec<String>> = Vec::new();
    let mut k: usize = 0;
    assert(spv.take(0) =~= Seq::<Seq<char>>::empty());
    assert(crate::types::rows_view(slides@) =~= Seq::<Seq<Seq<char>>>::empty());
    assert(strs(seen@) =~= Seq::<Seq<char>>::empty());
    while k < slide_paths.len()
        invariant
            k <= slide_paths@.len(),
            spv == strs(slide_paths@),
            (crate::types::rows_view(slides@), strs(seen@)) == slide_fold(content@, spv.take(k as int), seq![]),
        decreases slide_paths@.len() - k,
    {
        assert(spv.take(k + 1).drop_last() =~= spv.take(k as int));
        assert(spv.take(k + 1).last() == slide_paths@[k as int]@);
        match read_iwa_file(content, slide_paths[k].as_str()) {
            Ok(d) => {
                let texts = extract_text_from_proto(d.as_slice());
                let unique = fresh_exec(texts, &mut seen);
                if unique.len() > 0 {
                    let ghost before = crate::types::rows_view(slides@);
                    let ghost uv = strs(unique@);
                    slides.push(unique);
                    assert(crate::types::rows_view(slides@) =~= before.push(uv));
                }
            },
            Err(_) => {},
        }
        k = k + 1;
    }
    assert(spv.take(k as int) =~= spv);
    let other_raw = read_texts(content, &other_paths);
    let other_texts = fresh_exec(dedup_text(other_raw), &mut seen);
    Ok(KeynoteData { slide_texts: slides, other_texts, metadata })
}

/// `d` with a slide element (numbered from 1, its first string trimmed as title)
/// and the other strings as paragraphs for each non-empty slide.
pub open spec fn add_slides(d: DocView, slides: Seq<Seq<Seq<char>>>) -> DocView
    decreases slides.len(),
{
    if slides.len() == 0 {
        d
    } else {
        let d2 = add_slides(d, slides.drop_last());
        let lines = slides.last();
        if lines.len() == 0 {
            d2
        } else {
            add_paragraphs(
                add_elem(d2, plain(ElementKind::Slide { number: as_u32(slides.len()) }, text::trim(lines[0]))),
                lines.skip(1),
            )
        }
    }
}

/// The document of Keynote data: the slides, then the other text under
/// "Additional Content" (the heading only when there are slides).
pub open spec fn keynote_doc(v: KeynoteView) -> DocView {
    let d2 = add_slides(with_metadata(empty_doc(), v.meta), v.slides);
    if v.other.len() > 0 {
        let d3 = if v.slides.len() > 0 {
            add_elem(d2, plain(ElementKind::Heading { level: 2 }, "Additional Content"@))
        } else {
            d2
        };
        add_paragraphs(d3, v.other)
    } else {
        d2
    }
}

/// The document of Keynote data.
pub fn build_keynote_internal_document(data: &KeynoteData) -> (r: InternalDocument)
    ensures
        r@ == keynote_doc(data@),
        r.source_format@ == "keynote"@,
{
    let mut doc = InternalDocument::new("keynote");
    apply_metadata(&mut doc, &data.metadata);
    let ghost sv = data@.slides;
    let ghost d0 = doc@;
    let mut k: usize = 0;
    assert(sv.take(0) =~= Seq::<Seq<Seq<char>>>::empty());
    while k < data.slide_texts.len()
        invariant
            k <= data.slide_texts@.len(),
            sv == data@.slides,
            doc@ == add_slides(d0, sv.take(k as int)),
            doc.source_format@ == "keynote"@,
        decreases data.slide_texts@.len() - k,
    {
        assert(sv.take(k + 1).drop_last() =~= sv.take(k as int));
        assert(sv.take(k + 1).last() == strs(data.slide_texts@[k as int]@));
        let lines = &data.slide_texts[k];
        if lines.len() > 0 {
            let number = (((k as u64) + 1) % 0x1_0000_0000) as u32;
            let c = str_chars(lines[0].as_str());
            let title = text::trim_vec(c.as_slice());
            doc.push_plain(ElementKind::Slide { number }, title.as_slice());
            push_texts(&mut doc, lines.as_slice(), 1, false);
        }
        k = k + 1;
    }
    assert(sv.take(k as int) =~= sv);
    if data.other_texts.len() > 0 {
        if data.slide_texts.len() > 0 {
            let h = str_chars("Additional Content");
            doc.push_plain(ElementKind::Heading { level: 2 }, h.as_slice());
        }
        assert(strs(data.other_texts@).skip(0) =~= strs(data.other_texts@));
        push_texts(&mut doc, data.other_texts.as_slice(), 0, false);
    }
    doc
}

impl KeynoteExtractor {
    /// Extracts a Keynote presentation: its slides with titles and text, other
    /// text, and metadata.
    pub fn extract_bytes(&self, content: &[u8], mime_type: &str) -> (r: Result<InternalDocument, KreuzbergError>)
        requires
            zip_plist_ok(content@),
        ensures
            match spec_parse_keynote(content@) {
                Ok(v) => r matches Ok(d) && d@ == keynote_doc(v) && d.mime_type@ == mime_type@,
                Err(m) => r matches Err(KreuzbergError::Parsing(x)) && x@ == m,
            },
    {
        let data = match parse_keynote(content) {
            Ok(d) => d,
            Err(e) => {
                return Err(e);
            },
        };
        let mut doc = build_keynote_internal_document(&data);
        doc.mime_type = mime_type.to_owned();
        Ok(doc)
    }

    /// `extract_bytes` when the archive's plist metadata is readable; `None`
    /// otherwise.
    pub fn try_extract_bytes(&self, content: &[u8], mime_type: &str) -> (r: Option<Result<InternalDocument, KreuzbergError>>)
        ensures
            !zip_plist_ok(content@) ==> r is None,
            zip_plist_ok(content@) ==> (r matches Some(x) && match spec_parse_keynote(content@) {
                Ok(v) => x matches Ok(d) && d@ == keynote_doc(v) && d.mime_type@ == mime_type@,
                Err(m) => x matches Err(KreuzbergError::Parsing(e)) && e@ == m,
            }),
    {
        if zip_plist_well_formed(content) {
            Some(self.extract_bytes(content, mime_type))
        } else {
            None
        }
    }
}

} // verus!
