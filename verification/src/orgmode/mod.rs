//! Org Mode: the extractor's description, inline markup, lists, links and the
//! line-based document builder.

pub mod builder;
pub mod tree;

use vstd::prelude::*;
use crate::plugins::{ExtractorInfo, InfoView, KreuzbergError, VERSION, make_info, str_views};
use crate::text;
use crate::text::{chars_string, find_from_exec, find_str, is_ascii_ws, slice_vec, starts_with_str, str_chars};
use crate::types::{AnnView, AnnotationKind, KindView, TextAnnotation, anns_view, rows_view};
use crate::latex::inline::{offset, offset_exec, push_text};
use crate::document::{anns_within, lemma_anns_within_extend, lemma_boundaries_of_prefix, on_char_boundary};
use crate::markdown_table::{table_markdown_string, table_md};

verus! {

/// Org Mode document extractor.
pub struct OrgModeExtractor;
impl Default for OrgModeExtractor {
    fn default() -> (r: Self)
        ensures
            r == OrgModeExtractor,
    {
        OrgModeExtractor
    }
}
impl OrgModeExtractor {
    /// A new extractor.
    pub fn new() -> (r: Self)
        ensures
            r == OrgModeExtractor,
    {
        OrgModeExtractor
    }

    /// The extractor's name.
    pub fn name(&self) -> (r: &'static str)
        ensures
            r@ == "orgmode-extractor"@,
    {
        "orgmode-extractor"
    }

    /// The library version.
    pub fn version(&self) -> (r: String)
        ensures
            r@ == VERSION@,
    {
        VERSION.to_owned()
    }

    /// Prepares the extractor; nothing can fail.
    pub fn initialize(&self) -> (r: Result<(), KreuzbergError>)
        ensures
            r is Ok,
    {
        Ok(())
    }

    /// Releases the extractor; nothing can fail.
    pub fn shutdown(&self) -> (r: Result<(), KreuzbergError>)
        ensures
            r is Ok,
    {
        Ok(())
    }

    /// What the extractor does.
    pub fn description(&self) -> (r: &'static str)
        ensures
            r@ == "Native Rust extractor for Org Mode documents with comprehensive metadata extraction"@,
    {
        "Native Rust extractor for Org Mode documents with comprehensive metadata extraction"
    }

    /// Who wrote the extractor.
    pub fn author(&self) -> (r: &'static str)
        ensures
            r@ == "Kreuzberg Team"@,
    {
        "Kreuzberg Team"
    }

    /// The MIME types the extractor handles.
    pub fn supported_mime_types(&self) -> (r: Vec<&'static str>)
        ensures
            str_views(r@) == seq!["text/x-org"@, "text/org"@, "application/x-org"@],
    {
        let mut v: Vec<&'static str> = Vec::new();
        v.push("text/x-org");
        v.push("text/org");
        v.push("application/x-org");
        assert(str_views(v@) =~= seq!["text/x-org"@, "text/org"@, "application/x-org"@]);
        v
    }

    /// The extractor's priority among those handling the same MIME type.
    pub fn priority(&self) -> (r: i32)
        ensures
            r == 50,
    {
        50
    }

    /// The description the registry keeps of this extractor.
    pub open spec fn descriptor() -> InfoView {
        InfoView { name: "orgmode-extractor"@, priority: 50, mime_types: seq!["text/x-org"@, "text/org"@, "application/x-org"@] }
    }

    /// The description the registry keeps.
    pub fn info(&self) -> (r: ExtractorInfo)
        ensures
            r@ == Self::descriptor(),
    {
        let m = self.supported_mime_types();
        make_info(self.name(), self.priority(), m.as_slice())
    }
}

// ---------------------------------------------------------------------------
// Inline markup
// ---------------------------------------------------------------------------

/// The Org emphasis markers: `*bold*`, `/italic/`, `_underline_`, `=verbatim=`,
/// `~code~`, `+strikethrough+`.
pub open spec fn markup_char(c: char) -> bool {
    c == '*' || c == '/' || c == '_' || c == '=' || c == '~' || c == '+'
}

/// What may follow a closing marker besides whitespace and the end of the text.
pub open spec fn closing_follower(c: char) -> bool {
    is_ascii_ws(c) || c == '.' || c == ',' || c == ';' || c == ':' || c == ')' || c == ']' || c == '"'
}

/// `s[j]` closes markup that opened with `m` just before `from`: it is `m`, after
/// `from`, not preceded by whitespace, and followed by the end, whitespace or
/// punctuation.
pub open spec fn closes_at(s: Seq<char>, j: int, from: int, m: char) -> bool {
    &&& 0 <= j < s.len()
    &&& s[j] == m
    &&& j > from
    &&& !is_ascii_ws(s[j - 1])
    &&& (j + 1 >= s.len() || closing_follower(s[j + 1]))
}

/// The first closing marker at or after `j`.
pub open spec fn close_from(s: Seq<char>, j: nat, from: nat, m: char) -> Option<nat>
    decreases s.len() - j,
{
    if j >= s.len() {
        None
    } else if closes_at(s, j as int, from as int, m) {
        Some(j)
    } else {
        close_from(s, j + 1, from, m)
    }
}

/// Where the markup opened by `m` just before `from` closes.
pub open spec fn markup_close(s: Seq<char>, from: nat, m: char) -> Option<nat> {
    close_from(s, from, from, m)
}

/// A closing position lies after `from` and inside the text.
pub proof fn lemma_close_from(s: Seq<char>, j: nat, from: nat, m: char)
    requires
        from <= j,
    ensures
        close_from(s, j, from, m) matches Some(k) ==> from < k < s.len() && closes_at(s, k as int, from as int, m),
    decreases s.len() - j,
{
    if j < s.len() && !closes_at(s, j as int, from as int, m) {
        lemma_close_from(s, j + 1, from, m);
    }
}

/// The annotation kind an emphasis marker stands for.
pub open spec fn marker_kind(m: char) -> KindView {
    if m == '*' {
        KindView::Bold
    } else if m == '/' {
        KindView::Italic
    } else if m == '_' {
        KindView::Underline
    } else if m == '=' || m == '~' {
        KindView::Code
    } else {
        KindView::Strikethrough
    }
}

/// `[[url][description]]` or `[[url]]` at `start`: the url, the text to show and
/// where the link ends.
pub open spec fn org_link(t: Seq<char>, start: nat) -> Option<(Seq<char>, Seq<char>, nat)> {
    if start > t.len() || !text::starts_with(t.skip(start as int), "[["@) {
        None
    } else {
        let a = start + 2;
        let rest = t.skip(a as int);
        match text::find(rest, "]["@) {
            Some(d) => {
                let b = a + d + 2;
                match text::find(t.skip(b as int), "]]"@) {
                    Some(c) => Some((rest.take(d as int), t.subrange(b as int, (b + c) as int), b + c + 2)),
                    None => None,
                }
            },
            None => match text::find(rest, "]]"@) {
                Some(c) => Some((rest.take(c as int), rest.take(c as int), a + c + 2)),
                None => None,
            },
        }
    }
}

/// A link ends after it starts, inside the text.
pub proof fn lemma_org_link(t: Seq<char>, start: nat)
    ensures
        org_link(t, start) matches Some((u, d, to)) ==> start + 4 <= to <= t.len(),
{
    reveal_strlit("[[");
    reveal_strlit("][");
    reveal_strlit("]]");
    if start <= t.len() && text::starts_with(t.skip(start as int), "[["@) {
        let a = start + 2;
        let rest = t.skip(a as int);
        text::lemma_find_from(rest, "]["@, 0);
        text::lemma_find_from(rest, "]]"@, 0);
        if let Some(d) = text::find(rest, "]["@) {
            let b = a + d + 2;
            text::lemma_find_from(t.skip(b as int), "]]"@, 0);
        }
    }
}

/// The character before `i` allows markup to open: start of text, whitespace, `(`
/// or `"`.
pub open spec fn opens_after(s: Seq<char>, i: int) -> bool {
    i == 0 || is_ascii_ws(s[i - 1]) || s[i - 1] == '(' || s[i - 1] == '"'
}

/// Markup stripping from position `i` on, `out` and `anns` produced so far.
pub open spec fn inline_from(s: Seq<char>, i: nat, out: Seq<char>, anns: Seq<AnnView>) -> (
    Seq<char>,
    Seq<AnnView>,
)
    decreases s.len() - i,
{
    if i >= s.len() {
        (out, anns)
    } else if i + 1 < s.len() && s[i as int] == '[' && s[i + 1int] == '[' && org_link(s, i) is Some {
        let (url, display, to) = org_link(s, i)->0;
        proof {
            lemma_org_link(s, i);
        }
        let start = offset(out);
        let out2 = out + display;
        let end = offset(out2);
        let anns2 = if start < end {
            anns.push(AnnView { start, end, kind: KindView::Link { url, title: None } })
        } else {
            anns
        };
        inline_from(s, to, out2, anns2)
    } else if markup_char(s[i as int]) && opens_after(s, i as int) && i + 1 < s.len() && !is_ascii_ws(
        s[i + 1int],
    ) && markup_close(s, i + 1, s[i as int]) is Some {
        let close = markup_close(s, i + 1, s[i as int])->0;
        proof {
            lemma_close_from(s, i + 1, i + 1, s[i as int]);
        }
        let start = offset(out);
        let out2 = out + s.subrange(i + 1int, close as int);
        let end = offset(out2);
        let anns2 = if start < end {
            anns.push(AnnView { start, end, kind: marker_kind(s[i as int]) })
        } else {
            anns
        };
        inline_from(s, close + 1, out2, anns2)
    } else {
        inline_from(s, i + 1, out.push(s[i as int]), anns)
    }
}

/// Org inline markup of `s` stripped: the plain text and annotations over byte
/// ranges of it (offsets modulo 2^32).
pub open spec fn spec_inline(s: Seq<char>) -> (Seq<char>, Seq<AnnView>) {
    inline_from(s, 0, seq![], seq![])
}

/// Stripping keeps what was produced before as the start of its result, and
/// keeps annotations within the text, when the result is shorter than 2^32
/// bytes.
proof fn lemma_inline_from_within(s: Seq<char>, i: nat, out: Seq<char>, anns: Seq<AnnView>)
    ensures
        inline_from(s, i, out, anns).0.len() >= out.len(),
        inline_from(s, i, out, anns).0.take(out.len() as int) == out,
        anns_within(out, anns) && text::utf8_len(inline_from(s, i, out, anns).0) < 0x1_0000_0000 ==> anns_within(
            inline_from(s, i, out, anns).0,
            inline_from(s, i, out, anns).1,
        ),
    decreases s.len() - i,
{
    let r = inline_from(s, i, out, anns);
    if i >= s.len() {
        assert(out.take(out.len() as int) =~= out);
    } else if i + 1 < s.len() && s[i as int] == '[' && s[i + 1int] == '[' && org_link(s, i) is Some {
        let (url, display, to) = org_link(s, i)->0;
        lemma_org_link(s, i);
        let out2 = out + display;
        let k = KindView::Link { url, title: None };
        let anns2 = if offset(out) < offset(out2) {
            anns.push(AnnView { start: offset(out), end: offset(out2), kind: k })
        } else {
            anns
        };
        lemma_inline_from_within(s, to, out2, anns2);
        lemma_step_within(out, display, anns, k, r.0, anns2);
    } else if markup_char(s[i as int]) && opens_after(s, i as int) && i + 1 < s.len() && !is_ascii_ws(s[i + 1int])
        && markup_close(s, i + 1, s[i as int]) is Some {
        let close = markup_close(s, i + 1, s[i as int])->0;
        lemma_close_from(s, i + 1, i + 1, s[i as int]);
        let w = s.subrange(i + 1int, close as int);
        let out2 = out + w;
        let k = marker_kind(s[i as int]);
        let anns2 = if offset(out) < offset(out2) {
            anns.push(AnnView { start: offset(out), end: offset(out2), kind: k })
        } else {
            anns
        };
        lemma_inline_from_within(s, close + 1, out2, anns2);
        lemma_step_within(out, w, anns, k, r.0, anns2);
    } else {
        let out2 = out.push(s[i as int]);
        lemma_inline_from_within(s, i + 1, out2, anns);
        assert(out2 =~= out + seq![s[i as int]]);
        lemma_step_within(out, seq![s[i as int]], anns, KindView::Bold, r.0, anns);
    }
}

/// One step of stripping: `w` appended to `out`, perhaps with an annotation
/// over it; the result `o` starts with `out + w`.
proof fn lemma_step_within(out: Seq<char>, w: Seq<char>, anns: Seq<AnnView>, k: KindView, o: Seq<char>, anns2: Seq<AnnView>)
    requires
        o.len() >= (out + w).len(),
        o.take((out + w).len() as int) == out + w,
        anns2 == anns || anns2 == anns.push(AnnView { start: offset(out), end: offset(out + w), kind: k }),
        anns2 != anns ==> offset(out) < offset(out + w),
    ensures
        o.len() >= out.len(),
        o.take(out.len() as int) == out,
        anns_within(out, anns) && text::utf8_len(o) < 0x1_0000_0000 ==> text::utf8_len(out + w) < 0x1_0000_0000
            && anns_within(out + w, anns2),
{
    assert(o.take(out.len() as int) =~= (out + w).take(out.len() as int));
    assert((out + w).take(out.len() as int) =~= out);
    if anns_within(out, anns) && text::utf8_len(o) < 0x1_0000_0000 {
        let ow = out + w;
        assert(o =~= ow + o.skip(ow.len() as int));
        text::lemma_utf8_len_concat(ow, o.skip(ow.len() as int));
        lemma_anns_within_extend(out, w, anns);
        lemma_boundaries_of_prefix(out, w);
        lemma_boundaries_of_prefix(ow, seq![]);
        assert(ow + Seq::<char>::empty() =~= ow);
        if anns2 != anns {
            assert forall|m: int| 0 <= m < anns2.len() implies {
                let a = #[trigger] anns2[m];
                &&& a.start < a.end
                &&& a.end <= text::utf8_len(ow)
                &&& on_char_boundary(ow, a.start as nat)
                &&& on_char_boundary(ow, a.end as nat)
            } by {
                if m < anns.len() {
                    assert(anns2[m] == anns[m]);
                }
            }
        }
    }
}

/// Stripped Org markup annotates nonempty byte ranges of the stripped text,
/// each starting and ending on a character boundary (for a text shorter than
/// 2^32 bytes, the range of the `u32` offsets).
pub proof fn lemma_inline_annotations_within(s: Seq<char>)
    requires
        text::utf8_len(spec_inline(s).0) < 0x1_0000_0000,
    ensures
        anns_within(spec_inline(s).0, spec_inline(s).1),
{
    lemma_inline_from_within(s, 0, seq![], seq![]);
}

/// The labels of the `[fn:label]` references in `s` from `from` on; empty labels
/// are skipped, and the scan stops at a reference that is never closed.
pub open spec fn footnotes_from(s: Seq<char>, from: nat) -> Seq<Seq<char>>
    decreases s.len() - from,
{
    if from > s.len() {
        seq![]
    } else {
        match text::find(s.skip(from as int), "[fn:"@) {
            None => seq![],
            Some(pos) => {
                let abs = from + pos;
                match text::find_char(s.skip(abs as int), ']') {
                    None => seq![],
                    Some(close) => {
                        proof {
                            text::lemma_find_char_some(s.skip(abs as int), ']');
                            text::lemma_find_from(s.skip(from as int), "[fn:"@, 0);
                        }
                        let label = s.subrange(abs + 4int, abs + close as int);
                        let later = footnotes_from(s, abs + close + 1);
                        if label.len() == 0 {
                            later
                        } else {
                            seq![label] + later
                        }
                    },
                }
            },
        }
    }
}

/// `[fn:` never holds `]`, so the `]` of a reference comes after it.
proof fn lemma_footnote_close(s: Seq<char>, abs: nat)
    requires
        text::matches_at(s, abs as int, "[fn:"@),
    ensures
        text::find_char(s.skip(abs as int), ']') matches Some(c) ==> c >= 4 && abs + c < s.len(),
{
    reveal_strlit("[fn:");
    text::lemma_find_char_some(s.skip(abs as int), ']');
    if let Some(c) = text::find_char(s.skip(abs as int), ']') {
        if c < 4 {
            assert(s.subrange(abs as int, abs + 4int)[c as int] == s.skip(abs as int)[c as int]);
        }
    }
}

// ---------------------------------------------------------------------------
// Lines: lists, images, structure
// ---------------------------------------------------------------------------

/// The position of the first space.
pub open spec fn first_space(t: Seq<char>) -> Option<nat> {
    text::find_char(t, ' ')
}

/// `t` has a numbered-list prefix such as `1.` or `2)` before a space within its
/// first four bytes.
pub open spec fn numbered_prefix(t: Seq<char>) -> bool {
    match first_space(t) {
        Some(sp) => sp > 0 && text::utf8_len(t.take(sp as int)) < 5 && (t[sp - 1] == '.' || t[sp - 1]
            == ')') && forall|k: int| 0 <= k < sp - 1 ==> #[trigger] text::numeric(t[k]),
        None => false,
    }
}

/// A list item: `- `, `+ ` or a numbered prefix after leading whitespace.
pub open spec fn list_item(line: Seq<char>) -> bool {
    let t = text::trim_start(line);
    text::starts_with(t, "- "@) || text::starts_with(t, "+ "@) || numbered_prefix(t)
}

/// An ordered list item: a numbered prefix after leading whitespace.
pub open spec fn ordered_item(line: Seq<char>) -> bool {
    numbered_prefix(text::trim_start(line))
}

/// The text of a list item without its bullet or number.
pub open spec fn item_text(line: Seq<char>) -> Seq<char> {
    let t = text::trim_start(line);
    if text::starts_with(t, "- "@) || text::starts_with(t, "+ "@) {
        t.skip(2)
    } else {
        match first_space(t) {
            Some(sp) => t.skip(sp + 1int),
            None => t,
        }
    }
}

/// ASCII letters in lower case, everything else as it is.
pub open spec fn ascii_lower(s: Seq<char>) -> Seq<char> {
    s.map_values(|c: char| if 'A' <= c <= 'Z' { ((c as u32) + 32) as char } else { c })
}

/// The part before the first `?` or `#`.
pub open spec fn before_query(s: Seq<char>) -> Seq<char> {
    match text::find_char(s, '?') {
        Some(q) => match text::find_char(s.take(q as int), '#') {
            Some(h) => s.take(h as int),
            None => s.take(q as int),
        },
        None => match text::find_char(s, '#') {
            Some(h) => s.take(h as int),
            None => s,
        },
    }
}

/// The image file extensions recognised in links.
pub open spec fn image_extensions() -> Seq<Seq<char>> {
    seq![
        ".png"@,
        ".jpg"@,
        ".jpeg"@,
        ".gif"@,
        ".svg"@,
        ".webp"@,
        ".bmp"@,
        ".tiff"@,
        ".tif"@,
        ".avif"@,
    ]
}

/// A link to an image: its path (without `file:`, query and fragment), in lower
/// case, ends with an image extension.
pub open spec fn image_url(url: Seq<char>) -> bool {
    let path = if text::starts_with(url, "file:"@) {
        url.skip(5)
    } else {
        url
    };
    let lower = ascii_lower(before_query(path));
    exists|k: int| 0 <= k < image_extensions().len() && text::ends_with(lower, #[trigger] image_extensions()[k])
}

/// A heading line: one or more `*` (fewer than 256) and a space.
pub open spec fn heading_stars(t: Seq<char>) -> nat
    decreases t.len(),
{
    if t.len() > 0 && t[0] == '*' {
        1 + heading_stars(t.drop_first())
    } else {
        0
    }
}

/// `t` is a heading line.
pub open spec fn heading_line(t: Seq<char>) -> bool {
    let n = heading_stars(t);
    0 < n < 256 && t.len() > n && t[n as int] == ' '
}

/// A trimmed line that starts a heading, block, directive, drawer, table, list
/// item or footnote definition, and so ends a paragraph.
pub open spec fn structural_start(t: Seq<char>) -> bool {
    ||| heading_line(t)
    ||| text::starts_with(t, "#+"@)
    ||| t == ":PROPERTIES:"@
    ||| t == ":END:"@
    ||| (text::starts_with(t, "|"@) && text::ends_with(t, "|"@))
    ||| list_item(t)
    ||| text::starts_with(t, "[fn:"@)
}

/// The leading `*` of a heading line are its first characters.
proof fn lemma_heading_stars(t: Seq<char>)
    ensures
        heading_stars(t) <= t.len(),
        forall|k: int| 0 <= k < heading_stars(t) ==> t[k] == '*',
        heading_stars(t) < t.len() ==> t[heading_stars(t) as int] != '*',
    decreases t.len(),
{
    if t.len() > 0 && t[0] == '*' {
        lemma_heading_stars(t.drop_first());
        assert forall|k: int| 0 <= k < heading_stars(t) implies t[k] == '*' by {
            if k > 0 {
                assert(t[k] == t.drop_first()[k - 1]);
            }
        }
    }
}

/// The number of leading `*`.
fn count_stars(t: &[char]) -> (n: usize)
    ensures
        n == heading_stars(t@),
{
    proof {
        lemma_heading_stars(t@);
    }
    let mut n: usize = 0;
    while n < t.len() && t[n] == '*'
        invariant
            n <= t@.len(),
            forall|k: int| 0 <= k < n ==> t@[k] == '*',
            heading_stars(t@) <= t@.len(),
            forall|k: int| 0 <= k < heading_stars(t@) ==> t@[k] == '*',
            heading_stars(t@) < t@.len() ==> t@[heading_stars(t@) as int] != '*',
            n <= heading_stars(t@),
        decreases t@.len() - n,
    {
        n = n + 1;
    }
    n
}

/// Whether `t` is a heading line.
fn is_heading_line(t: &[char]) -> (r: bool)
    ensures
        r == heading_line(t@),
{
    let n = count_stars(t);
    n > 0 && n < 256 && t.len() > n && t[n] == ' '
}

/// Whether every character of `t[..n]` is numeric.
fn all_numeric(t: &[char], n: usize) -> (r: bool)
    requires
        n <= t@.len(),
    ensures
        r == forall|k: int| 0 <= k < n ==> #[trigger] text::numeric(t@[k]),
{
    let mut k: usize = 0;
    while k < n
        invariant
            k <= n <= t@.len(),
            forall|j: int| 0 <= j < k ==> #[trigger] text::numeric(t@[j]),
        decreases n - k,
    {
        if !text::is_numeric(t[k]) {
            return false;
        }
        k = k + 1;
    }
    true
}

/// Whether `t` has a numbered-list prefix.
fn has_numbered_prefix(t: &[char]) -> (r: bool)
    ensures
        r == numbered_prefix(t@),
{
    match text::find_char_exec(t, ' ') {
        Some(sp) => {
            proof {
                text::lemma_find_char_some(t@, ' ');
            }
            if sp == 0 {
                return false;
            }
            let head = slice_vec(t, 0, sp);
            assert(head@ =~= t@.take(sp as int));
            let bytes = text::utf8_len_exec(head.as_slice());
            bytes < 5 && (t[sp - 1] == '.' || t[sp - 1] == ')') && all_numeric(t, sp - 1)
        },
        None => false,
    }
}

impl OrgModeExtractor {
    /// Whether `c` is one of the Org emphasis markers.
    pub fn is_org_markup_char(c: char) -> (r: bool)
        ensures
            r == markup_char(c),
    {
        c == '*' || c == '/' || c == '_' || c == '=' || c == '~' || c == '+'
    }

    /// Where markup opened by `marker` just before `from` closes: the first `marker`
    /// after `from` not preceded by whitespace and followed by the end, whitespace or
    /// punctuation.
    pub fn find_org_markup_close(s: &[char], from: usize, marker: char) -> (r: Option<usize>)
        ensures
            r matches Some(k) ==> markup_close(s@, from as nat, marker) == Some(k as nat),
            r is None ==> markup_close(s@, from as nat, marker) is None,
    {
        let mut j = from;
        let n = s.len();
        if j > n {
            return None;
        }
        while j < n
            invariant
                from <= j <= n == s@.len(),
                markup_close(s@, from as nat, marker) == close_from(s@, j as nat, from as nat, marker),
            decreases n - j,
        {
            if s[j] == marker && j > from && !text::is_ascii_whitespace(s[j - 1]) {
                if j + 1 >= n {
                    return Some(j);
                }
                let c = s[j + 1];
                if text::is_ascii_whitespace(c) || c == '.' || c == ',' || c == ';' || c == ':' || c == ')'
                    || c == ']' || c == '"' {
                    return Some(j);
                }
            }
            j = j + 1;
        }
        None
    }

    /// `[[url][description]]` or `[[url]]` at `start`: the url, the text to show
    /// (the description, else the url) and the position after the link.
    pub fn parse_org_link(t: &[char], start: usize) -> (r: Option<(String, String, usize)>)
        ensures
            r matches Some(x) ==> org_link(t@, start as nat) == Some((x.0@, x.1@, x.2 as nat)),
            r is None ==> org_link(t@, start as nat) is None,
    {
        proof {
            lemma_org_link(t@, start as nat);
            reveal_strlit("[[");
            reveal_strlit("][");
            reveal_strlit("]]");
        }
        let n = t.len();
        if start > n {
            return None;
        }
        let tail = slice_vec(t, start, n);
        assert(tail@ =~= t@.skip(start as int));
        if !starts_with_str(tail.as_slice(), "[[") {
            return None;
        }
        let a = start + 2;
        let rest = slice_vec(t, a, n);
        assert(rest@ =~= t@.skip(a as int));
        proof {
            text::lemma_find_from(rest@, "]["@, 0);
            text::lemma_find_from(rest@, "]]"@, 0);
        }
        match find_str(rest.as_slice(), "][") {
            Some(d) => {
                let b = a + d + 2;
                let after = slice_vec(t, b, n);
                assert(after@ =~= t@.skip(b as int));
                proof {
                    text::lemma_find_from(after@, "]]"@, 0);
                }
                match find_str(after.as_slice(), "]]") {
                    Some(c) => {
                        let url = slice_vec(rest.as_slice(), 0, d);
                        let desc = slice_vec(t, b, b + c);
                        assert(url@ =~= rest@.take(d as int));
                        Some((chars_string(url.as_slice()), chars_string(desc.as_slice()), b + c + 2))
                    },
                    None => None,
                }
            },
            None => match find_str(rest.as_slice(), "]]") {
                Some(c) => {
                    let url = slice_vec(rest.as_slice(), 0, c);
                    assert(url@ =~= rest@.take(c as int));
                    let u = chars_string(url.as_slice());
                    let d = chars_string(url.as_slice());
                    Some((u, d, a + c + 2))
                },
                None => None,
            },
        }
    }

    /// Strips Org inline markup from characters: links show their description (or
    /// url), emphasis markers go; annotations cover byte ranges of the result.
    pub fn parse_inline_chars(s: &[char]) -> (r: (Vec<char>, Vec<TextAnnotation>))
        ensures
            (r.0@, anns_view(r.1@)) == spec_inline(s@),
    {
        let mut out: Vec<char> = Vec::new();
        let mut anns: Vec<TextAnnotation> = Vec::new();
        let mut bytes: u128 = 0;
        let mut i: usize = 0;
        let n = s.len();
        assert(anns_view(anns@) =~= Seq::<AnnView>::empty());
        while i < n
            invariant
                i <= n == s@.len(),
                bytes == text::utf8_len(out@),
                spec_inline(s@) == inline_from(s@, i as nat, out@, anns_view(anns@)),
            decreases n - i,
        {
            let ghost a0 = anns_view(anns@);
            if i + 1 < n && s[i] == '[' && s[i + 1] == '[' {
                proof {
                    lemma_org_link(s@, i as nat);
                }
                match Self::parse_org_link(s, i) {
                    Some((url, display, to)) => {
                        let dv = str_chars(display.as_str());
                        let start = offset_exec(bytes);
                        push_text(&mut out, &mut bytes, dv.as_slice());
                        let end = offset_exec(bytes);
                        if start < end {
                            let na = TextAnnotation {
                                start,
                                end,
                                kind: AnnotationKind::Link { url, title: None },
                            };
                            anns.push(na);
                            assert(anns_view(anns@) =~= a0.push(na@));
                        }
                        i = to;
                        continue;
                    },
                    None => {},
                }
            }
            let c = s[i];
            if Self::is_org_markup_char(c) && i + 1 < n && !text::is_ascii_whitespace(s[i + 1]) {
                let opens = i == 0 || text::is_ascii_whitespace(s[i - 1]) || s[i - 1] == '(' || s[i - 1]
                    == '"';
                if opens {
                    proof {
                        lemma_close_from(s@, (i + 1) as nat, (i + 1) as nat, c);
                    }
                    match Self::find_org_markup_close(s, i + 1, c) {
                        Some(close) => {
                            let inner = slice_vec(s, i + 1, close);
                            let start = offset_exec(bytes);
                            push_text(&mut out, &mut bytes, inner.as_slice());
                            let end = offset_exec(bytes);
                            if start < end {
                                let kind = if c == '*' {
                                    AnnotationKind::Bold
                                } else if c == '/' {
                                    AnnotationKind::Italic
                                } else if c == '_' {
                                    AnnotationKind::Underline
                                } else if c == '=' || c == '~' {
                                    AnnotationKind::Code
                                } else {
                                    AnnotationKind::Strikethrough
                                };
                                let na = TextAnnotation { start, end, kind };
                                anns.push(na);
                                assert(anns_view(anns@) =~= a0.push(na@));
                            }
                            i = close + 1;
                            continue;
                        },
                        None => {},
                    }
                }
            }
            let ghost o = out@;
            let one: [char; 1] = [c];
            assert(one@ =~= seq![c]);
            push_text(&mut out, &mut bytes, &one);
            assert(out@ =~= o.push(c));
            i = i + 1;
        }
        (out, anns)
    }

    /// Strips Org inline markup (`*bold*`, `/italic/`, `_underline_`, `=verbatim=`,
    /// `~code~`, `+strike+`, `[[url][desc]]`) and returns the text with annotations
    /// over byte ranges of it.
    pub fn parse_inline_markup(raw: &str) -> (r: (String, Vec<TextAnnotation>))
        ensures
            (r.0@, anns_view(r.1@)) == spec_inline(raw@),
    {
        let s = str_chars(raw);
        let (out, anns) = Self::parse_inline_chars(s.as_slice());
        (chars_string(out.as_slice()), anns)
    }

    /// The labels of the `[fn:label]` footnote references in `line`.
    pub fn find_footnote_references(line: &str) -> (r: Vec<String>)
        ensures
            crate::types::strs(r@) == footnotes_from(line@, 0),
    {
        proof {
            reveal_strlit("[fn:");
        }
        let s = str_chars(line);
        let n = s.len();
        let mut refs: Vec<String> = Vec::new();
        let mut from: usize = 0;
        let ghost pre: Seq<Seq<char>> = seq![];
        assert(crate::types::strs(refs@) =~= Seq::<Seq<char>>::empty());
        while from <= n
            invariant
                from <= n + 1,
                n == s@.len(),
                s@ == line@,
                footnotes_from(line@, 0) == crate::types::strs(refs@) + footnotes_from(line@, from as nat),
            ensures
                footnotes_from(line@, 0) == crate::types::strs(refs@),
            decreases n + 1 - from,
        {
            proof {
                reveal_strlit("[fn:");
            }
            let tail = slice_vec(s.as_slice(), from, n);
            assert(tail@ =~= s@.skip(from as int));
            proof {
                text::lemma_find_from(tail@, "[fn:"@, 0);
            }
            match find_str(tail.as_slice(), "[fn:") {
                None => {
                    assert(crate::types::strs(refs@) + Seq::<Seq<char>>::empty() =~= crate::types::strs(refs@));
                    break;
                },
                Some(pos) => {
                    let abs = from + pos;
                    assert(text::matches_at(s@, abs as int, "[fn:"@)) by {
                        assert(s@.subrange(abs as int, abs + 4) =~= tail@.subrange(pos as int, pos + 4));
                    }
                    proof {
                        lemma_footnote_close(s@, abs as nat);
                    }
                    let after = slice_vec(s.as_slice(), abs, n);
                    assert(after@ =~= s@.skip(abs as int));
                    match text::find_char_exec(after.as_slice(), ']') {
                        None => {
                            assert(crate::types::strs(refs@) + Seq::<Seq<char>>::empty() =~= crate::types::strs(
                                refs@,
                            ));
                            break;
                        },
                        Some(close) => {
                            let label = slice_vec(s.as_slice(), abs + 4, abs + close);
                            if label.len() > 0 {
                                let ghost before = refs@;
                                let ls = chars_string(label.as_slice());
                                refs.push(ls);
                                assert(crate::types::strs(refs@) =~= crate::types::strs(before) + seq![ls@]);
                            }
                            from = abs + close + 1;
                        },
                    }
                },
            }
        }
        refs
    }

    /// Whether a line is a list item (`- `, `+ `, `1.`, `1)`).
    pub fn is_org_list_item(line: &str) -> (r: bool)
        ensures
            r == list_item(line@),
    {
        let s = str_chars(line);
        let t = text::trim_start_vec(s.as_slice());
        starts_with_str(t.as_slice(), "- ") || starts_with_str(t.as_slice(), "+ ") || has_numbered_prefix(
            t.as_slice(),
        )
    }

    /// Whether a list item is ordered (`1.`, `1)`).
    pub fn is_org_ordered_item(line: &str) -> (r: bool)
        ensures
            r == ordered_item(line@),
    {
        let s = str_chars(line);
        let t = text::trim_start_vec(s.as_slice());
        has_numbered_prefix(t.as_slice())
    }

    /// A list item's text without its bullet or number.
    pub fn strip_list_prefix(line: &str) -> (r: String)
        ensures
            r@ == item_text(line@),
    {
        proof {
            reveal_strlit("- ");
            reveal_strlit("+ ");
        }
        let s = str_chars(line);
        let t = text::trim_start_vec(s.as_slice());
        if starts_with_str(t.as_slice(), "- ") || starts_with_str(t.as_slice(), "+ ") {
            let r = slice_vec(t.as_slice(), 2, t.len());
            assert(r@ =~= t@.skip(2));
            return chars_string(r.as_slice());
        }
        match text::find_char_exec(t.as_slice(), ' ') {
            Some(sp) => {
                proof {
                    text::lemma_find_char_some(t@, ' ');
                }
                let r = slice_vec(t.as_slice(), sp + 1, t.len());
                assert(r@ =~= t@.skip(sp + 1));
                chars_string(r.as_slice())
            },
            None => chars_string(t.as_slice()),
        }
    }

    /// Whether a link points to an image, by its file extension.
    pub fn is_image_url(url: &str) -> (r: bool)
        ensures
            r == image_url(url@),
    {
        proof {
            reveal_strlit("file:");
        }
        let u = str_chars(url);
        let path = if starts_with_str(u.as_slice(), "file:") {
            slice_vec(u.as_slice(), 5, u.len())
        } else {
            slice_vec(u.as_slice(), 0, u.len())
        };
        assert(path@ =~= (if text::starts_with(url@, "file:"@) {
            url@.skip(5)
        } else {
            url@
        }));
        let p = cut_query(path.as_slice());
        let lower = to_ascii_lower(p.as_slice());
        let exts: [&str; 10] = [".png", ".jpg", ".jpeg", ".gif", ".svg", ".webp", ".bmp", ".tiff", ".tif", ".avif"];
        let ghost ev = image_extensions();
        assert(ev.len() == 10);
        let mut k: usize = 0;
        while k < 10
            invariant
                k <= 10,
                ev == image_extensions(),
                forall|j: int| 0 <= j < 10 ==> #[trigger] exts@[j]@ == ev[j],
                forall|j: int| 0 <= j < k ==> !text::ends_with(lower@, #[trigger] ev[j]),
                lower@ == ascii_lower(before_query(if text::starts_with(url@, "file:"@) {
                    url@.skip(5)
                } else {
                    url@
                })),
            decreases 10 - k,
        {
            let e = str_chars(exts[k]);
            if text::ends_with_exec(lower.as_slice(), e.as_slice()) {
                assert(text::ends_with(lower@, image_extensions()[k as int]));
                return true;
            }
            k = k + 1;
        }
        false
    }

    /// A table as Markdown: rows of `| cell |`, a separator after the first row
    /// when there is more than one.
    pub fn cells_to_markdown(cells: &[Vec<String>]) -> (r: String)
        ensures
            r@ == table_md(rows_view(cells@)),
    {
        table_markdown_string(cells)
    }

    /// Whether a trimmed line starts a structural element (heading, block,
    /// directive, drawer, table, list item, footnote definition).
    pub fn is_structural_start(trimmed: &str) -> (r: bool)
        ensures
            r == structural_start(trimmed@),
    {
        let t = str_chars(trimmed);
        let ts = t.as_slice();
        is_heading_line(ts) || starts_with_str(ts, "#+") || text::str_eq(trimmed, ":PROPERTIES:")
            || text::str_eq(trimmed, ":END:") || (starts_with_str(ts, "|") && ends_with_str(ts, "|"))
            || Self::is_org_list_item(trimmed) || starts_with_str(ts, "[fn:")
    }
}

/// Whether `s` ends with `p`.
fn ends_with_str(s: &[char], p: &str) -> (r: bool)
    ensures
        r == text::ends_with(s@, p@),
{
    let pv = str_chars(p);
    text::ends_with_exec(s, pv.as_slice())
}

/// The part of `s` before the first `?` or `#`.
fn cut_query(s: &[char]) -> (r: Vec<char>)
    ensures
        r@ == before_query(s@),
{
    match text::find_char_exec(s, '?') {
        Some(q) => {
            proof {
                text::lemma_find_char_some(s@, '?');
            }
            let head = slice_vec(s, 0, q);
            assert(head@ =~= s@.take(q as int));
            match text::find_char_exec(head.as_slice(), '#') {
                Some(h) => {
                    proof {
                        text::lemma_find_char_some(head@, '#');
                    }
                    let r = slice_vec(s, 0, h);
                    assert(r@ =~= s@.take(h as int));
                    r
                },
                None => head,
            }
        },
        None => match text::find_char_exec(s, '#') {
            Some(h) => {
                proof {
                    text::lemma_find_char_some(s@, '#');
                }
                let r = slice_vec(s, 0, h);
                assert(r@ =~= s@.take(h as int));
                r
            },
            None => slice_vec(s, 0, s.len()),
        },
    }
}

/// ASCII letters lowered.
fn to_ascii_lower(s: &[char]) -> (r: Vec<char>)
    ensures
        r@ == ascii_lower(s@),
{
    let mut r: Vec<char> = Vec::new();
    let mut k: usize = 0;
    while k < s.len()
        invariant
            k <= s@.len(),
            r@ == ascii_lower(s@.take(k as int)),
        decreases s@.len() - k,
    {
        let c = s[k];
        let d = if 'A' <= c && c <= 'Z' {
            ((c as u8) + 32) as char
        } else {
            c
        };
        r.push(d);
        assert(ascii_lower(s@.take(k + 1)) =~= ascii_lower(s@.take(k as int)).push(d));
        k = k + 1;
    }
    assert(s@.take(k as int) =~= s@);
    r
}

} // verus!
