//! HWP (Hangul Word Processor): the extractor's description, the mapping of
//! character-shape runs to text annotations, and the structured document of a
//! parsed file.

use vstd::prelude::*;
use crate::plugins::{ExtractorInfo, InfoView, KreuzbergError, VERSION, make_info, str_views};
use crate::text;
use crate::text::{len_utf8, str_chars};
use crate::types::{AnnView, AnnotationKind, ExtractedImage, ImageView, KindView, TextAnnotation, anns_view, opt_str};
use crate::document::{add_elem, add_image, empty_doc, DocView, ElemView, ElementKind, InternalDocument, InternalElement};

verus! {

/// Extractor for Hangul Word Processor (.hwp) files, the HWP 5.0 format.
pub struct HwpExtractor;
impl Default for HwpExtractor {
    fn default() -> (r: Self)
        ensures
            r == HwpExtractor,
    {
        HwpExtractor
    }
}
impl HwpExtractor {
    /// A new extractor.
    pub fn new() -> (r: Self)
        ensures
            r == HwpExtractor,
    {
        HwpExtractor
    }

    /// The extractor's name.
    pub fn name(&self) -> (r: &'static str)
        ensures
            r@ == "hwp-extractor"@,
    {
        "hwp-extractor"
    }

    /// The library version.
    pub fn version(&self) -> (r: String)
        ensures
            r@ == VERSION@,
    {
        VERSION.to_owned()
    }

    /// Prepares the extractor; nothing can fail.
    pub fn initialize(&self) -> (r: Result<(), KreuzbergError>)
        ensures
            r is Ok,
    {
        Ok(())
    }

    /// Releases the extractor; nothing can fail.
    pub fn shutdown(&self) -> (r: Result<(), KreuzbergError>)
        ensures
            r is Ok,
    {
        Ok(())
    }

    /// What the extractor does.
    pub fn description(&self) -> (r: &'static str)
        ensures
            r@ == "Hangul Word Processor (.hwp) text extraction"@,
    {
        "Hangul Word Processor (.hwp) text extraction"
    }

    /// Who wrote the extractor.
    pub fn author(&self) -> (r: &'static str)
        ensures
            r@ == "Kreuzberg Team"@,
    {
        "Kreuzberg Team"
    }

    /// The MIME types the extractor handles.
    pub fn supported_mime_types(&self) -> (r: Vec<&'static str>)
        ensures
            str_views(r@) == seq!["application/x-hwp"@],
    {
        let mut v: Vec<&'static str> = Vec::new();
        v.push("application/x-hwp");
        assert(str_views(v@) =~= seq!["application/x-hwp"@]);
        v
    }

    /// The extractor's priority among those handling the same MIME type.
    pub fn priority(&self) -> (r: i32)
        ensures
            r == 50,
    {
        50
    }

    /// The description the registry keeps of this extractor.
    pub open spec fn descriptor() -> InfoView {
        InfoView { name: "hwp-extractor"@, priority: 50, mime_types: seq!["application/x-hwp"@] }
    }

    /// The description the registry keeps.
    pub fn info(&self) -> (r: ExtractorInfo)
        ensures
            r@ == Self::descriptor(),
    {
        let m = self.supported_mime_types();
        make_info(self.name(), self.priority(), m.as_slice())
    }
}

// ---------------------------------------------------------------------------
// Character shapes
// ---------------------------------------------------------------------------

/// The formatting of a character-shape record that annotations are made from.
#[derive(Clone, Copy, Debug, Default, PartialEq, Eq)]
pub struct CharShape {
    pub bold: bool,
    pub italic: bool,
    pub underline: bool,
}

/// `r` placed after every run of `sorted` whose start is at most its own.
pub open spec fn insert_run(sorted: Seq<(u32, u16)>, r: (u32, u16)) -> Seq<(u32, u16)>
    decreases sorted.len(),
{
    if sorted.len() == 0 {
        seq![r]
    } else if sorted.last().0 <= r.0 {
        sorted.push(r)
    } else {
        insert_run(sorted.drop_last(), r).push(sorted.last())
    }
}

/// The runs ordered by start position, runs of equal start kept in their order
/// (a stable sort).
pub open spec fn sort_runs(runs: Seq<(u32, u16)>) -> Seq<(u32, u16)>
    decreases runs.len(),
{
    if runs.len() == 0 {
        seq![]
    } else {
        insert_run(sort_runs(runs.drop_last()), runs.last())
    }
}

/// Ordered by start position.
pub open spec fn runs_sorted(s: Seq<(u32, u16)>) -> bool {
    forall|i: int, j: int| 0 <= i < j < s.len() ==> s[i].0 <= s[j].0
}

/// The position at which `insert_run` puts `r`: after the runs that start at or
/// before it.
pub open spec fn insert_pos(sorted: Seq<(u32, u16)>, r: (u32, u16)) -> nat
    decreases sorted.len(),
{
    if sorted.len() == 0 || sorted.last().0 <= r.0 {
        sorted.len()
    } else {
        insert_pos(sorted.drop_last(), r)
    }
}

/// Inserting is placing at `insert_pos`, and keeps the order.
pub proof fn lemma_insert_run(sorted: Seq<(u32, u16)>, r: (u32, u16))
    requires
        runs_sorted(sorted),
    ensures
        insert_run(sorted, r) == sorted.insert(insert_pos(sorted, r) as int, r),
        insert_pos(sorted, r) <= sorted.len(),
        forall|k: int| 0 <= k < insert_pos(sorted, r) ==> sorted[k].0 <= r.0,
        forall|k: int| insert_pos(sorted, r) <= k < sorted.len() ==> sorted[k].0 > r.0,
        runs_sorted(insert_run(sorted, r)),
        insert_run(sorted, r).to_multiset() == sorted.to_multiset().insert(r),
    decreases sorted.len(),
{
    broadcast use vstd::seq_lib::group_to_multiset_ensures;

    if sorted.len() == 0 {
        assert(seq![r] =~= sorted.insert(0, r));
    } else if sorted.last().0 <= r.0 {
        assert(sorted.push(r) =~= sorted.insert(sorted.len() as int, r));
    } else {
        let front = sorted.drop_last();
        assert(runs_sorted(front));
        lemma_insert_run(front, r);
        let p = insert_pos(front, r);
        assert(insert_run(front, r).push(sorted.last()) =~= sorted.insert(p as int, r));
        let res = insert_run(sorted, r);
        assert forall|i: int, j: int| 0 <= i < j < res.len() implies res[i].0 <= res[j].0 by {
            if j == res.len() - 1 {
                if i < p {
                    assert(res[i] == front[i]);
                } else if i == p {
                } else {
                    assert(res[i] == front[i - 1]);
                }
            }
        }
        assert(sorted =~= front.push(sorted.last()));
    }
}

/// Sorting orders the runs and keeps exactly the same runs.
pub proof fn lemma_sort_runs(runs: Seq<(u32, u16)>)
    ensures
        runs_sorted(sort_runs(runs)),
        sort_runs(runs).to_multiset() == runs.to_multiset(),
        sort_runs(runs).len() == runs.len(),
    decreases runs.len(),
{
    broadcast use vstd::seq_lib::group_to_multiset_ensures;

    if runs.len() > 0 {
        lemma_sort_runs(runs.drop_last());
        lemma_insert_run(sort_runs(runs.drop_last()), runs.last());
        assert(runs =~= runs.drop_last().push(runs.last()));
    }
}

/// The runs in a stable order by start position.
pub fn sort_runs_exec(runs: &[(u32, u16)]) -> (r: Vec<(u32, u16)>)
    ensures
        r@ == sort_runs(runs@),
{
    let mut sorted: Vec<(u32, u16)> = Vec::new();
    let mut k: usize = 0;
    while k < runs.len()
        invariant
            k <= runs@.len(),
            sorted@ == sort_runs(runs@.take(k as int)),
        decreases runs@.len() - k,
    {
        let r = runs[k];
        proof {
            lemma_sort_runs(runs@.take(k as int));
            lemma_insert_run(sorted@, r);
            assert(runs@.take(k + 1).drop_last() =~= runs@.take(k as int));
        }
        let mut p = sorted.len();
        while p > 0 && sorted[p - 1].0 > r.0
            invariant
                p <= sorted@.len(),
                runs_sorted(sorted@),
                forall|j: int| p <= j < sorted@.len() ==> sorted@[j].0 > r.0,
                insert_pos(sorted@, r) <= p,
                forall|j: int| 0 <= j < insert_pos(sorted@, r) ==> sorted@[j].0 <= r.0,
            decreases p,
        {
            p = p - 1;
        }
        assert(p == insert_pos(sorted@, r));
        sorted.insert(p, r);
        k = k + 1;
    }
    assert(runs@.take(k as int) =~= runs@);
    sorted
}

/// The byte offset of character `k` of `t`, the byte length when past the end.
pub open spec fn char_byte(t: Seq<char>, k: nat) -> nat {
    if k < t.len() {
        text::utf8_len(t.take(k as int))
    } else {
        text::utf8_len(t)
    }
}

/// An offset as a `u32` (modulo 2^32).
pub open spec fn as_u32(n: nat) -> u32 {
    (n % 0x1_0000_0000) as u32
}

/// The annotations for one shape over bytes `a..b`: bold, italic, underline.
pub open spec fn shape_anns(shape: CharShape, a: nat, b: nat) -> Seq<AnnView> {
    let start = as_u32(a);
    let end = as_u32(b);
    (if shape.bold {
        seq![AnnView { start, end, kind: KindView::Bold }]
    } else {
        seq![]
    }) + (if shape.italic {
        seq![AnnView { start, end, kind: KindView::Italic }]
    } else {
        seq![]
    }) + (if shape.underline {
        seq![AnnView { start, end, kind: KindView::Underline }]
    } else {
        seq![]
    })
}

/// The annotations of sorted run `i` on: each run reaches to the start of the
/// next (the last to the end of the text), and a run whose shape exists and whose
/// range is not empty gets its shape's annotations.
pub open spec fn runs_anns(t: Seq<char>, sorted: Seq<(u32, u16)>, shapes: Seq<CharShape>, i: nat) -> Seq<AnnView>
    decreases sorted.len() - i,
{
    if i >= sorted.len() {
        seq![]
    } else {
        let (start_pos, idx) = sorted[i as int];
        let end_pos: u32 = if i + 1 < sorted.len() {
            sorted[i + 1int].0
        } else {
            as_u32(t.len())
        };
        let here = if (idx as nat) < shapes.len() {
            let a = char_byte(t, start_pos as nat);
            let b = char_byte(t, end_pos as nat);
            if a < b {
                shape_anns(shapes[idx as int], a, b)
            } else {
                seq![]
            }
        } else {
            seq![]
        };
        here + runs_anns(t, sorted, shapes, i + 1)
    }
}

/// The annotations that character-shape runs give a text.
pub open spec fn spec_char_shapes(t: Seq<char>, runs: Seq<(u32, u16)>, shapes: Seq<CharShape>) -> Seq<AnnView> {
    if runs.len() == 0 || shapes.len() == 0 {
        seq![]
    } else {
        runs_anns(t, sort_runs(runs), shapes, 0)
    }
}

/// Byte offset `b` of `t` falls on a character boundary.
pub open spec fn on_boundary(t: Seq<char>, b: nat) -> bool {
    exists|j: int| 0 <= j <= t.len() && text::utf8_len(#[trigger] t.take(j)) == b
}

/// An annotation of the character shapes: a nonempty range of `t` on character
/// boundaries, bold, italic or underline.
pub open spec fn shape_ann_ok(t: Seq<char>, a: AnnView) -> bool {
    &&& a.start < a.end
    &&& a.end <= text::utf8_len(t)
    &&& on_boundary(t, a.start as nat)
    &&& on_boundary(t, a.end as nat)
    &&& (a.kind == KindView::Bold || a.kind == KindView::Italic || a.kind == KindView::Underline)
}

proof fn lemma_char_byte(t: Seq<char>, k: nat)
    ensures
        char_byte(t, k) <= text::utf8_len(t),
        on_boundary(t, char_byte(t, k)),
{
    if k < t.len() {
        text::lemma_utf8_len_concat(t.take(k as int), t.skip(k as int));
        assert(t.take(k as int) + t.skip(k as int) =~= t);
        assert(text::utf8_len(t.take(k as int)) == char_byte(t, k));
    } else {
        assert(t.take(t.len() as int) =~= t);
        assert(text::utf8_len(t.take(t.len() as int)) == char_byte(t, k));
    }
}

proof fn lemma_runs_anns(t: Seq<char>, sorted: Seq<(u32, u16)>, shapes: Seq<CharShape>, i: nat)
    requires
        text::utf8_len(t) < 0x1_0000_0000,
    ensures
        i <= sorted.len() ==> runs_anns(t, sorted, shapes, i).len() + 3 * i <= 3 * sorted.len(),
        forall|k: int|
            0 <= k < runs_anns(t, sorted, shapes, i).len() ==> shape_ann_ok(t, #[trigger] runs_anns(t, sorted, shapes, i)[k]),
    decreases sorted.len() - i,
{
    if i < sorted.len() {
        lemma_runs_anns(t, sorted, shapes, i + 1);
        let (start_pos, idx) = sorted[i as int];
        let end_pos: u32 = if i + 1 < sorted.len() {
            sorted[i + 1int].0
        } else {
            as_u32(t.len())
        };
        let rest = runs_anns(t, sorted, shapes, i + 1);
        if (idx as nat) < shapes.len() {
            let a = char_byte(t, start_pos as nat);
            let b = char_byte(t, end_pos as nat);
            lemma_char_byte(t, start_pos as nat);
            lemma_char_byte(t, end_pos as nat);
            if a < b {
                let here = shape_anns(shapes[idx as int], a, b);
                assert(as_u32(a) == a && as_u32(b) == b);
                assert(here.len() <= 3);
                assert(runs_anns(t, sorted, shapes, i) == here + rest);
                assert forall|k: int| 0 <= k < (here + rest).len() implies shape_ann_ok(t, #[trigger] (here + rest)[k]) by {
                    if k >= here.len() {
                        assert((here + rest)[k] == rest[k - here.len()]);
                    }
                }
            } else {
                assert(runs_anns(t, sorted, shapes, i) =~= rest);
            }
        } else {
            assert(runs_anns(t, sorted, shapes, i) =~= rest);
        }
    }
}

/// The annotations character shapes give a text (of fewer than 2^32 bytes):
/// none without runs or shapes; at most three per run; each a nonempty byte
/// range within the text, on character boundaries, bold, italic or underline.
pub proof fn lemma_char_shapes_bounds(t: Seq<char>, runs: Seq<(u32, u16)>, shapes: Seq<CharShape>)
    requires
        text::utf8_len(t) < 0x1_0000_0000,
    ensures
        (runs.len() == 0 || shapes.len() == 0) ==> spec_char_shapes(t, runs, shapes).len() == 0,
        spec_char_shapes(t, runs, shapes).len() <= 3 * runs.len(),
        forall|k: int|
            0 <= k < spec_char_shapes(t, runs, shapes).len() ==> shape_ann_ok(t, #[trigger] spec_char_shapes(t, runs, shapes)[k]),
{
    if runs.len() > 0 && shapes.len() > 0 {
        lemma_sort_runs(runs);
        lemma_runs_anns(t, sort_runs(runs), shapes, 0);
    }
}

/// No two runs start at the same character.
pub open spec fn distinct_starts(runs: Seq<(u32, u16)>) -> bool {
    forall|i: int, j: int| 0 <= i < j < runs.len() ==> runs[i].0 != runs[j].0
}

/// Two orderings of the same runs, both sorted by start and with no two runs
/// starting at the same character, are the same sequence.
proof fn lemma_sorted_unique(a: Seq<(u32, u16)>, b: Seq<(u32, u16)>)
    requires
        runs_sorted(a),
        runs_sorted(b),
        distinct_starts(a),
        a.to_multiset() == b.to_multiset(),
    ensures
        a == b,
    decreases a.len(),
{
    broadcast use vstd::seq_lib::group_to_multiset_ensures;

    assert(a.len() == b.len()) by {
        vstd::seq_lib::to_multiset_len(a);
        vstd::seq_lib::to_multiset_len(b);
    }
    if a.len() > 0 {
        let n = a.len() - 1;
        let x = a[n];
        let y = b[n];
        assert(a.contains(x));
        assert(a.to_multiset().count(x) > 0);
        assert(b.contains(x));
        let j = choose|j: int| 0 <= j < b.len() && b[j] == x;
        assert(b.to_multiset().count(y) > 0) by {
            assert(b.contains(y));
        }
        assert(a.contains(y));
        let i = choose|i: int| 0 <= i < a.len() && a[i] == y;
        assert(y.0 <= x.0);
        assert(x.0 <= y.0);
        if i != n {
            assert(a[i].0 != a[n].0);
        }
        assert(x == y);
        assert(a.drop_last() == a.remove(n));
        assert(b.drop_last() == b.remove(n));
        assert(a.drop_last().to_multiset() == b.drop_last().to_multiset());
        assert(runs_sorted(a.drop_last()));
        assert(runs_sorted(b.drop_last()));
        assert(distinct_starts(a.drop_last()));
        lemma_sorted_unique(a.drop_last(), b.drop_last());
        assert(a =~= a.drop_last().push(x));
        assert(b =~= b.drop_last().push(y));
    }
}

/// The order of the runs does not matter when no two start at the same
/// character: any reordering gives the same annotations.
pub proof fn lemma_char_shapes_order(t: Seq<char>, runs: Seq<(u32, u16)>, perm: Seq<(u32, u16)>, shapes: Seq<CharShape>)
    requires
        perm.to_multiset() == runs.to_multiset(),
        distinct_starts(runs),
    ensures
        spec_char_shapes(t, perm, shapes) == spec_char_shapes(t, runs, shapes),
{
    broadcast use vstd::seq_lib::group_to_multiset_ensures;

    lemma_sort_runs(runs);
    lemma_sort_runs(perm);
    let s = sort_runs(runs);
    assert(perm.len() == runs.len()) by {
        vstd::seq_lib::to_multiset_len(perm);
        vstd::seq_lib::to_multiset_len(runs);
    }
    assert(distinct_starts(s)) by {
        assert forall|i: int, j: int| 0 <= i < j < s.len() implies s[i].0 != s[j].0 by {
            assert(s.to_multiset().count(s[i]) > 0) by {
                assert(s.contains(s[i]));
            }
            assert(s.to_multiset().count(s[j]) > 0) by {
                assert(s.contains(s[j]));
            }
            assert(runs.contains(s[i]));
            assert(runs.contains(s[j]));
            let p = choose|p: int| 0 <= p < runs.len() && runs[p] == s[i];
            let q = choose|q: int| 0 <= q < runs.len() && runs[q] == s[j];
            if s[i].0 == s[j].0 {
                assert(p == q);
                assert(s[i] == s[j]);
                // two equal runs would start at the same character
                assert(s.to_multiset().count(s[i]) >= 2) by {
                    assert(s.remove(j).contains(s[i])) by {
                        assert(s.remove(j)[i] == s[i]);
                    }
                    assert(s.remove(j).to_multiset().count(s[i]) > 0);
                }
                assert(runs.to_multiset().count(runs[p]) >= 2);
                assert(runs.remove(p).to_multiset().count(runs[p]) > 0);
                assert(runs.remove(p).contains(runs[p]));
                let r = choose|r: int| 0 <= r < runs.remove(p).len() && runs.remove(p)[r] == runs[p];
                if r < p {
                    assert(runs[r] == runs[p]);
                } else {
                    assert(runs[r + 1] == runs[p]);
                }
            }
        }
    }
    lemma_sorted_unique(s, sort_runs(perm));
}

/// The byte offset of every character of `t`, and the byte length at the end.
fn char_offsets(t: &[char]) -> (r: Vec<u128>)
    ensures
        r@.len() == t@.len() + 1,
        forall|k: int| 0 <= k <= t@.len() ==> r@[k] == text::utf8_len(#[trigger] t@.take(k)),
{
    let mut r: Vec<u128> = Vec::new();
    let mut n: u128 = 0;
    let mut k: usize = 0;
    assert(t@.take(0) =~= Seq::<char>::empty());
    r.push(0);
    while k < t.len()
        invariant
            k <= t@.len(),
            r@.len() == k + 1,
            n == text::utf8_len(t@.take(k as int)),
            n <= 4 * k,
            forall|j: int| 0 <= j <= k ==> r@[j] == text::utf8_len(#[trigger] t@.take(j)),
        decreases t@.len() - k,
    {
        let c = len_utf8(t[k]);
        assert(t@.take(k + 1).drop_last() =~= t@.take(k as int));
        n = n + c as u128;
        r.push(n);
        k = k + 1;
    }
    r
}

/// Pushes the annotations of one shape over bytes `a..b`.
fn push_shape(anns: &mut Vec<TextAnnotation>, shape: CharShape, a: u128, b: u128)
    ensures
        anns_view(final(anns)@) == anns_view(old(anns)@) + shape_anns(shape, a as nat, b as nat),
{
    let ghost before = anns_view(anns@);
    let start = (a % 0x1_0000_0000) as u32;
    let end = (b % 0x1_0000_0000) as u32;
    if shape.bold {
        anns.push(TextAnnotation { start, end, kind: AnnotationKind::Bold });
    }
    if shape.italic {
        anns.push(TextAnnotation { start, end, kind: AnnotationKind::Italic });
    }
    if shape.underline {
        anns.push(TextAnnotation { start, end, kind: AnnotationKind::Underline });
    }
    assert(anns_view(anns@) =~= before + shape_anns(shape, a as nat, b as nat));
}

/// The annotations that character-shape runs give a paragraph: the runs
/// `(start character, shape index)` are ordered by start, each reaches to the next
/// run (the last to the end), and a run of an existing shape over a non-empty
/// range is annotated bold, italic and underline as its shape says, over byte
/// offsets of the text.
pub fn apply_char_shapes(text: &str, runs: &[(u32, u16)], char_shapes: &[CharShape]) -> (r: Vec<TextAnnotation>)
    ensures
        anns_view(r@) == spec_char_shapes(text@, runs@, char_shapes@),
{
    let mut annotations: Vec<TextAnnotation> = Vec::new();
    assert(anns_view(annotations@) =~= Seq::<AnnView>::empty());
    if runs.len() == 0 || char_shapes.len() == 0 {
        return annotations;
    }
    let t = str_chars(text);
    let offs = char_offsets(t.as_slice());
    let total_chars = t.len();
    let sorted = sort_runs_exec(runs);
    let ghost sv = sorted@;
    let mut i: usize = 0;
    assert(sv.skip(0) =~= sv);
    while i < sorted.len()
        invariant
            i <= sorted@.len(),
            sv == sorted@,
            total_chars == text@.len(),
            t@ == text@,
            offs@.len() == t@.len() + 1,
            forall|k: int| 0 <= k <= t@.len() ==> offs@[k] == text::utf8_len(#[trigger] t@.take(k)),
            runs_anns(text@, sv, char_shapes@, 0) == anns_view(annotations@) + runs_anns(
                text@,
                sv,
                char_shapes@,
                i as nat,
            ),
        decreases sorted@.len() - i,
    {
        let (start_pos, shape_idx) = sorted[i];
        let end_pos: u32 = if i + 1 < sorted.len() {
            sorted[i + 1].0
        } else {
            ((total_chars as u64) % 0x1_0000_0000) as u32
        };
        let ghost a0 = anns_view(annotations@);
        if (shape_idx as usize) < char_shapes.len() {
            let shape = char_shapes[shape_idx as usize];
            let sp = start_pos as usize;
            let ep = end_pos as usize;
            let sb = if sp < total_chars { offs[sp] } else { offs[total_chars] };
            let eb = if ep < total_chars { offs[ep] } else { offs[total_chars] };
            assert(t@.take(t@.len() as int) =~= t@);
            if sb < eb {
                push_shape(&mut annotations, shape, sb, eb);
            }
        }
        assert(anns_view(annotations@) + runs_anns(text@, sv, char_shapes@, (i + 1) as nat) =~= a0
            + runs_anns(text@, sv, char_shapes@, i as nat));
        i = i + 1;
    }
    assert(anns_view(annotations@) + Seq::<AnnView>::empty() =~= anns_view(annotations@));
    annotations
}


// ---------------------------------------------------------------------------
// The document model
// ---------------------------------------------------------------------------

/// The text of a paragraph.
#[derive(Clone, Debug, PartialEq, Eq)]
pub struct ParaText {
    pub content: String,
}

/// A paragraph: its outline level (0 for body text, 1 and up for headings), its
/// text, and its character-shape runs `(start character, shape index)`.
#[derive(Clone, Debug, PartialEq, Eq)]
pub struct Paragraph {
    pub outline_level: u8,
    pub text: Option<ParaText>,
    pub char_shape_runs: Vec<(u32, u16)>,
}

/// A section of paragraphs.
#[derive(Clone, Debug, PartialEq, Eq)]
pub struct Section {
    pub paragraphs: Vec<Paragraph>,
}

/// An embedded image: its name in the file and its bytes.
#[derive(Clone, Debug, PartialEq, Eq)]
pub struct HwpImage {
    pub name: String,
    pub data: Vec<u8>,
}

/// A parsed HWP document: its character shapes, sections and images.
#[derive(Clone, Debug, PartialEq, Eq)]
pub struct HwpDocument {
    pub char_shapes: Vec<CharShape>,
    pub sections: Vec<Section>,
    pub images: Vec<HwpImage>,
}

/// The MIME type `infer` detects from the magic bytes of `data`, if any.
pub uninterp spec fn inferred_mime(data: Seq<u8>) -> Option<Seq<char>>;

/// Detects a file type from its magic bytes: `infer::get`, then the type's
/// `mime_type`. The result is a function of the bytes alone, named
/// `inferred_mime`; which types are detected is not stated here.
#[verifier::external_body]
fn infer_mime(data: &[u8]) -> (r: Option<String>)
    ensures
        opt_str(r) == inferred_mime(data@),
{
    infer::get(data).map(|t| t.mime_type().to_string())
}

/// A paragraph as an element: a heading of its outline level, or a body
/// paragraph, annotated by its character shapes; nothing without text.
pub open spec fn hwp_para_doc(d: DocView, p: Paragraph, shapes: Seq<CharShape>) -> DocView {
    match p.text {
        Some(t) => if t.content@.len() > 0 {
            let kind = if p.outline_level > 0 {
                ElementKind::Heading { level: p.outline_level }
            } else {
                ElementKind::Paragraph
            };
            add_elem(
                d,
                ElemView {
                    kind,
                    text: t.content@,
                    anns: spec_char_shapes(t.content@, p.char_shape_runs@, shapes),
                    attrs: seq![],
                    cells: seq![],
                    anchor: None,
                },
            )
        } else {
            d
        },
        None => d,
    }
}

/// The paragraphs one after the other.
pub open spec fn hwp_paras_doc(d: DocView, ps: Seq<Paragraph>, shapes: Seq<CharShape>) -> DocView
    decreases ps.len(),
{
    if ps.len() == 0 {
        d
    } else {
        hwp_para_doc(hwp_paras_doc(d, ps.drop_last(), shapes), ps.last(), shapes)
    }
}

/// The sections one after the other.
pub open spec fn hwp_sections_doc(d: DocView, ss: Seq<Section>, shapes: Seq<CharShape>) -> DocView
    decreases ss.len(),
{
    if ss.len() == 0 {
        d
    } else {
        hwp_paras_doc(hwp_sections_doc(d, ss.drop_last(), shapes), ss.last().paragraphs@, shapes)
    }
}

/// Image number `idx` of the document: its bytes, the MIME type its magic
/// bytes show (`application/octet-stream` when unknown), and its name as path.
pub open spec fn hwp_image(img: HwpImage, idx: usize) -> ImageView {
    ImageView {
        data: img.data@,
        format: match inferred_mime(img.data@) {
            Some(m) => m,
            None => "application/octet-stream"@,
        },
        image_index: idx,
        page_number: None,
        description: None,
        source_path: Some(img.name@),
    }
}

/// The images one after the other, numbered from 0.
pub open spec fn hwp_images_doc(d: DocView, imgs: Seq<HwpImage>) -> DocView
    decreases imgs.len(),
{
    if imgs.len() == 0 {
        d
    } else {
        add_image(hwp_images_doc(d, imgs.drop_last()), seq![], hwp_image(imgs.last(), (imgs.len() - 1) as usize))
    }
}

/// The document of an HWP file: its paragraphs section by section, then its
/// images.
pub open spec fn spec_hwp_document(doc: HwpDocument) -> DocView {
    hwp_images_doc(hwp_sections_doc(empty_doc(), doc.sections@, doc.char_shapes@), doc.images@)
}

/// A paragraph holds text that is not empty.
pub open spec fn has_text(p: Paragraph) -> bool {
    p.text matches Some(t) && t.content@.len() > 0
}

/// The paragraphs that hold text, in order.
pub open spec fn text_paragraphs(ps: Seq<Paragraph>) -> Seq<Paragraph>
    decreases ps.len(),
{
    if ps.len() == 0 {
        seq![]
    } else {
        text_paragraphs(ps.drop_last()) + if has_text(ps.last()) {
            seq![ps.last()]
        } else {
            seq![]
        }
    }
}

/// The paragraphs that hold text, section after section.
pub open spec fn section_text_paragraphs(ss: Seq<Section>) -> Seq<Paragraph>
    decreases ss.len(),
{
    if ss.len() == 0 {
        seq![]
    } else {
        section_text_paragraphs(ss.drop_last()) + text_paragraphs(ss.last().paragraphs@)
    }
}

/// Element `e` stands for paragraph `p`: its text, the annotations
/// `apply_char_shapes` gives that text for the paragraph's runs and the shapes
/// (whatever the outline level), and a heading of the outline level or a body
/// paragraph.
pub open spec fn renders_paragraph(e: ElemView, p: Paragraph, shapes: Seq<CharShape>) -> bool {
    &&& p.text is Some
    &&& e.text == p.text->0.content@
    &&& e.anns == spec_char_shapes(e.text, p.char_shape_runs@, shapes)
    &&& e.kind == if p.outline_level > 0 {
        ElementKind::Heading { level: p.outline_level }
    } else {
        ElementKind::Paragraph
    }
}

proof fn lemma_paras_elems(d: DocView, ps: Seq<Paragraph>, shapes: Seq<CharShape>)
    ensures
        hwp_paras_doc(d, ps, shapes).elems.len() == d.elems.len() + text_paragraphs(ps).len(),
        hwp_paras_doc(d, ps, shapes).elems.take(d.elems.len() as int) == d.elems,
        forall|k: int|
            0 <= k < text_paragraphs(ps).len() ==> renders_paragraph(
                #[trigger] hwp_paras_doc(d, ps, shapes).elems[d.elems.len() + k],
                text_paragraphs(ps)[k],
                shapes,
            ),
    decreases ps.len(),
{
    if ps.len() > 0 {
        let pre = hwp_paras_doc(d, ps.drop_last(), shapes);
        lemma_paras_elems(d, ps.drop_last(), shapes);
        let tp0 = text_paragraphs(ps.drop_last());
        let r = hwp_paras_doc(d, ps, shapes);
        assert(r == hwp_para_doc(pre, ps.last(), shapes));
        if has_text(ps.last()) {
            assert(text_paragraphs(ps) == tp0 + seq![ps.last()]);
            assert(r.elems.take(pre.elems.len() as int) =~= pre.elems);
            assert(r.elems.take(d.elems.len() as int) =~= pre.elems.take(d.elems.len() as int));
            assert forall|k: int| 0 <= k < text_paragraphs(ps).len() implies renders_paragraph(
                #[trigger] r.elems[d.elems.len() + k],
                text_paragraphs(ps)[k],
                shapes,
            ) by {
                if k < tp0.len() {
                    assert(r.elems[d.elems.len() + k] == pre.elems[d.elems.len() + k]);
                    assert(text_paragraphs(ps)[k] == tp0[k]);
                } else {
                    assert(r.elems[d.elems.len() + k] == r.elems.last());
                    assert(text_paragraphs(ps)[k] == ps.last());
                }
            }
        } else {
            assert(text_paragraphs(ps) =~= tp0);
            assert(r == pre);
        }
    } else {
        assert(d.elems.take(d.elems.len() as int) =~= d.elems);
    }
}

proof fn lemma_sections_elems(d: DocView, ss: Seq<Section>, shapes: Seq<CharShape>)
    ensures
        hwp_sections_doc(d, ss, shapes).elems.len() == d.elems.len() + section_text_paragraphs(ss).len(),
        hwp_sections_doc(d, ss, shapes).elems.take(d.elems.len() as int) == d.elems,
        forall|k: int|
            0 <= k < section_text_paragraphs(ss).len() ==> renders_paragraph(
                #[trigger] hwp_sections_doc(d, ss, shapes).elems[d.elems.len() + k],
                section_text_paragraphs(ss)[k],
                shapes,
            ),
    decreases ss.len(),
{
    if ss.len() > 0 {
        let pre = hwp_sections_doc(d, ss.drop_last(), shapes);
        lemma_sections_elems(d, ss.drop_last(), shapes);
        let ps = ss.last().paragraphs@;
        lemma_paras_elems(pre, ps, shapes);
        let t0 = section_text_paragraphs(ss.drop_last());
        let tp = text_paragraphs(ps);
        let r = hwp_sections_doc(d, ss, shapes);
        assert(r == hwp_paras_doc(pre, ps, shapes));
        assert(section_text_paragraphs(ss) == t0 + tp);
        assert(r.elems.take(d.elems.len() as int) =~= r.elems.take(pre.elems.len() as int).take(d.elems.len() as int));
        assert forall|k: int| 0 <= k < section_text_paragraphs(ss).len() implies renders_paragraph(
            #[trigger] r.elems[d.elems.len() + k],
            section_text_paragraphs(ss)[k],
            shapes,
        ) by {
            if k < t0.len() {
                assert(r.elems.take(pre.elems.len() as int)[d.elems.len() + k] == pre.elems[d.elems.len() + k]);
                assert(section_text_paragraphs(ss)[k] == t0[k]);
            } else {
                let k2 = k - t0.len();
                assert(r.elems[pre.elems.len() + k2] == r.elems[d.elems.len() + k]);
                assert(section_text_paragraphs(ss)[k] == tp[k2]);
            }
        }
    } else {
        assert(d.elems.take(d.elems.len() as int) =~= d.elems);
    }
}

proof fn lemma_images_keep_elems(d: DocView, imgs: Seq<HwpImage>)
    ensures
        hwp_images_doc(d, imgs).elems.len() >= d.elems.len(),
        hwp_images_doc(d, imgs).elems.take(d.elems.len() as int) == d.elems,
    decreases imgs.len(),
{
    if imgs.len() > 0 {
        let pre = hwp_images_doc(d, imgs.drop_last());
        lemma_images_keep_elems(d, imgs.drop_last());
        let r = hwp_images_doc(d, imgs);
        assert(r.elems.take(pre.elems.len() as int) =~= pre.elems);
        assert(r.elems.take(d.elems.len() as int) =~= pre.elems.take(d.elems.len() as int));
    } else {
        assert(d.elems.take(d.elems.len() as int) =~= d.elems);
    }
}

/// The document of an HWP file begins with one element per paragraph that holds
/// text, section after section: the paragraph's text, annotated exactly as
/// `apply_char_shapes` annotates it for the paragraph's runs and the file's
/// shapes (body paragraphs as well as headings), a heading of its outline level
/// or a body paragraph.
pub proof fn lemma_hwp_paragraph_elements(doc: HwpDocument)
    ensures
        section_text_paragraphs(doc.sections@).len() <= spec_hwp_document(doc).elems.len(),
        forall|k: int|
            0 <= k < section_text_paragraphs(doc.sections@).len() ==> renders_paragraph(
                #[trigger] spec_hwp_document(doc).elems[k],
                section_text_paragraphs(doc.sections@)[k],
                doc.char_shapes@,
            ),
{
    let shapes = doc.char_shapes@;
    let mid = hwp_sections_doc(empty_doc(), doc.sections@, shapes);
    lemma_sections_elems(empty_doc(), doc.sections@, shapes);
    lemma_images_keep_elems(mid, doc.images@);
    let r = spec_hwp_document(doc);
    assert forall|k: int| 0 <= k < section_text_paragraphs(doc.sections@).len() implies renders_paragraph(
        #[trigger] r.elems[k],
        section_text_paragraphs(doc.sections@)[k],
        shapes,
    ) by {
        assert(r.elems.take(mid.elems.len() as int)[k] == mid.elems[k]);
        assert(mid.elems[empty_doc().elems.len() + k] == mid.elems[k]);
    }
}

/// Adds the paragraphs of a section.
fn push_hwp_paras(d: &mut InternalDocument, ps: &Vec<Paragraph>, shapes: &Vec<CharShape>)
    ensures
        final(d)@ == hwp_paras_doc(old(d)@, ps@, shapes@),
        final(d).source_format == old(d).source_format,
{
    let ghost d0 = d@;
    let mut k: usize = 0;
    assert(ps@.take(0) =~= Seq::<Paragraph>::empty());
    while k < ps.len()
        invariant
            k <= ps@.len(),
            d@ == hwp_paras_doc(d0, ps@.take(k as int), shapes@),
            d.source_format == old(d).source_format,
        decreases ps@.len() - k,
    {
        assert(ps@.take(k + 1).drop_last() =~= ps@.take(k as int));
        let p = &ps[k];
        match &p.text {
            Some(t) => {
                if !t.content.as_str().is_empty() {
                    let anns = apply_char_shapes(t.content.as_str(), p.char_shape_runs.as_slice(), shapes.as_slice());
                    let kind = if p.outline_level > 0 {
                        ElementKind::Heading { level: p.outline_level }
                    } else {
                        ElementKind::Paragraph
                    };
                    let e = InternalElement {
                        kind,
                        text: t.content.clone(),
                        annotations: anns,
                        attributes: Vec::new(),
                        cells: Vec::new(),
                        anchor: None,
                    };
                    assert(e@.attrs =~= Seq::<(Seq<char>, Seq<char>)>::empty());
                    assert(e@.cells =~= Seq::<Seq<Seq<char>>>::empty());
                    d.push_element(e);
                }
            },
            None => {},
        }
        k = k + 1;
    }
    assert(ps@.take(k as int) =~= ps@);
}

/// The structured document of a parsed HWP file: each paragraph with text, a
/// heading of its outline level or a body paragraph, annotated by its
/// character shapes; then each image, typed by its magic bytes.
pub fn build_hwp_internal_document(hwp_doc: &HwpDocument) -> (r: InternalDocument)
    ensures
        r@ == spec_hwp_document(*hwp_doc),
        r.source_format@ == "hwp"@,
{
    let mut d = InternalDocument::new("hwp");
    let ghost d0 = d@;
    let mut s: usize = 0;
    assert(hwp_doc.sections@.take(0) =~= Seq::<Section>::empty());
    while s < hwp_doc.sections.len()
        invariant
            s <= hwp_doc.sections@.len(),
            d0 == empty_doc(),
            d@ == hwp_sections_doc(d0, hwp_doc.sections@.take(s as int), hwp_doc.char_shapes@),
            d.source_format@ == "hwp"@,
        decreases hwp_doc.sections@.len() - s,
    {
        assert(hwp_doc.sections@.take(s + 1).drop_last() =~= hwp_doc.sections@.take(s as int));
        push_hwp_paras(&mut d, &hwp_doc.sections[s].paragraphs, &hwp_doc.char_shapes);
        s = s + 1;
    }
    assert(hwp_doc.sections@.take(s as int) =~= hwp_doc.sections@);
    let ghost d1 = d@;
    let mut k: usize = 0;
    assert(hwp_doc.images@.take(0) =~= Seq::<HwpImage>::empty());
    while k < hwp_doc.images.len()
        invariant
            k <= hwp_doc.images@.len(),
            d@ == hwp_images_doc(d1, hwp_doc.images@.take(k as int)),
            d.source_format@ == "hwp"@,
        decreases hwp_doc.images@.len() - k,
    {
        assert(hwp_doc.images@.take(k + 1).drop_last() =~= hwp_doc.images@.take(k as int));
        let img = &hwp_doc.images[k];
        let format = match infer_mime(img.data.as_slice()) {
            Some(m) => m,
            None => "application/octet-stream".to_owned(),
        };
        let extracted = ExtractedImage {
            data: img.data.clone(),
            format,
            image_index: k,
            page_number: None,
            description: None,
            source_path: Some(img.name.clone()),
        };
        assert(extracted@ == hwp_image(*img, k));
        d.push_image(None, extracted);
        k = k + 1;
    }
    assert(hwp_doc.images@.take(k as int) =~= hwp_doc.images@);
    d
}

} // verus!
