//! Inline LaTeX markup stripped to plain text, with annotations (bold, italic,
//! underline, code, links) over byte ranges of the result.

use vstd::prelude::*;
use crate::text;
use crate::text::{
    chars_string, find_char_from, is_alphabetic, len_utf8, push_all, slice_vec, starts_with_str,
    str_chars,
};
use crate::types::{AnnView, AnnotationKind, KindView, TextAnnotation, anns_view, opt_str};
use super::commands::{alpha_end, past_char, lemma_scans};
use super::utilities::{close_brace, close_brace_exec, lemma_close_brace};
use super::LatexExtractor;
use crate::document::{
    anns_within, lemma_anns_within_concat, lemma_anns_within_extend, lemma_boundaries_of_prefix, lemma_prefix_bound,
    on_char_boundary,
};

verus! {

// ---------------------------------------------------------------------------
// Braced content
// ---------------------------------------------------------------------------

/// The content of a group whose opening `{` has been read, and how much is used
/// including the closing `}`; `None` when it never closes.
pub open spec fn spec_read_braced_content(s: Seq<char>) -> Option<(Seq<char>, nat)> {
    match close_brace(s, 0, 1) {
        Some(j) => Some((s.take(j as int), j + 1)),
        None => None,
    }
}

/// A closed group lies within the text.
pub proof fn lemma_read_braced_content(s: Seq<char>)
    ensures
        spec_read_braced_content(s) matches Some((c, n)) ==> 1 <= n <= s.len() && c.len() < n,
{
    lemma_close_brace(s, 0, 1);
}

/// Reads braced content after an already consumed `{`.
pub fn read_braced_chars(s: &[char]) -> (r: Option<(Vec<char>, usize)>)
    ensures
        r matches Some((c, n)) ==> spec_read_braced_content(s@) == Some((c@, n as nat)),
        r is None ==> spec_read_braced_content(s@) is None,
{
    match close_brace_exec(s, 0) {
        Some(j) => {
            assert(j < s@.len() == s.len());
            Some((slice_vec(s, 0, j), j + 1))
        },
        None => None,
    }
}

// ---------------------------------------------------------------------------
// Recognising commands at the start of a text
// ---------------------------------------------------------------------------

/// The formatting commands that take one braced argument.
pub open spec fn inline_cmds() -> Seq<(Seq<char>, KindView)> {
    seq![
        ("\\textbf{"@, KindView::Bold),
        ("\\emph{"@, KindView::Italic),
        ("\\textit{"@, KindView::Italic),
        ("\\underline{"@, KindView::Underline),
        ("\\texttt{"@, KindView::Code),
    ]
}

/// The first formatting command, from index `k` on, that `t` starts with and whose
/// argument closes: its kind, its argument and how much of `t` it uses.
pub open spec fn inline_prefix_match(t: Seq<char>, k: nat) -> Option<(KindView, Seq<char>, nat)>
    decreases 5 - k,
{
    if k >= 5 {
        None
    } else {
        let (p, kind) = inline_cmds()[k as int];
        if text::starts_with(t, p) {
            match spec_read_braced_content(t.skip(p.len() as int)) {
                Some((c, n)) => Some((kind, c, p.len() + n)),
                None => inline_prefix_match(t, k + 1),
            }
        } else {
            inline_prefix_match(t, k + 1)
        }
    }
}

/// `\url{u}`: a link to `u` showing `u`.
pub open spec fn url_match(t: Seq<char>) -> Option<(KindView, Seq<char>, nat)> {
    let up = "\\url{"@;
    if text::starts_with(t, up) {
        match spec_read_braced_content(t.skip(up.len() as int)) {
            Some((u, n)) => Some((KindView::Link { url: u, title: None }, u, up.len() + n)),
            None => verb_match(t),
        }
    } else {
        verb_match(t)
    }
}

/// `\verb` with a delimiter that is neither alphabetic nor `{`: code up to the next
/// delimiter.
pub open spec fn verb_match(t: Seq<char>) -> Option<(KindView, Seq<char>, nat)> {
    let vp = "\\verb"@;
    if text::starts_with(t, vp) && t.len() > vp.len() {
        let d = t[vp.len() as int];
        if !text::alphabetic(d) && d != '{' {
            let ad = t.skip(vp.len() as int + 1);
            match text::find_char(ad, d) {
                Some(e) => Some((KindView::Code, ad.take(e as int), vp.len() + 1 + e + 1)),
                None => None,
            }
        } else {
            None
        }
    } else {
        None
    }
}

/// An inline formatting command at the start of `t`: its annotation kind, the text
/// it shows, and how much of `t` it uses.
pub open spec fn spec_try_inline(t: Seq<char>) -> Option<(KindView, Seq<char>, nat)> {
    match inline_prefix_match(t, 0) {
        Some(x) => Some(x),
        None => {
            let hp = "\\href{"@;
            if text::starts_with(t, hp) {
                match spec_read_braced_content(t.skip(hp.len() as int)) {
                    Some((url, uc)) => {
                        let after_url = t.skip(hp.len() as int + uc as int);
                        if after_url.len() > 0 && after_url[0] == '{' {
                            match spec_read_braced_content(after_url.skip(1)) {
                                Some((lt, tc)) => Some(
                                    (KindView::Link { url: url, title: None }, lt, hp.len() + uc + 1 + tc),
                                ),
                                None => url_match(t),
                            }
                        } else {
                            url_match(t)
                        }
                    },
                    None => url_match(t),
                }
            } else {
                url_match(t)
            }
        },
    }
}

/// Replacements for symbol commands, braced forms first.
pub open spec fn special_table() -> Seq<(Seq<char>, Seq<char>)> {
    seq![
        ("\\textgreater{}"@, ">"@),
        ("\\textless{}"@, "<"@),
        ("\\textbackslash{}"@, "\\"@),
        ("\\ldots{}"@, "\u{2026}"@),
        ("\\textendash{}"@, "\u{2013}"@),
        ("\\textemdash{}"@, "\u{2014}"@),
        ("\\textasciitilde{}"@, "~"@),
        ("\\textasciicircum{}"@, "^"@),
        ("\\textbar{}"@, "|"@),
        ("\\ldots"@, "\u{2026}"@),
        ("\\dots"@, "\u{2026}"@),
        ("\\&"@, "&"@),
        ("\\#"@, "#"@),
        ("\\_"@, "_"@),
        ("\\{"@, "{"@),
        ("\\}"@, "}"@),
        ("\\%"@, "%"@),
        ("\\$"@, "$"@),
        ("\\\\"@, "\n"@),
        ("\\,"@, "\u{2009}"@),
        ("\\;"@, " "@),
        ("\\!"@, ""@),
        ("\\~"@, "~"@),
        ("\\^{}"@, "^"@),
    ]
}

/// The first symbol command, from index `k` on, that `t` starts with.
pub open spec fn special_match(t: Seq<char>, k: nat) -> Option<(Seq<char>, nat)>
    decreases 24 - k,
{
    if k >= 24 {
        None
    } else {
        let (p, rep) = special_table()[k as int];
        if text::starts_with(t, p) {
            Some((rep, p.len()))
        } else {
            special_match(t, k + 1)
        }
    }
}

/// A symbol command, or `\ensuremath{..}` passed through, at the start of `t`: its
/// replacement and how much of `t` it uses.
pub open spec fn spec_try_special(t: Seq<char>) -> Option<(Seq<char>, nat)> {
    match special_match(t, 0) {
        Some(x) => Some(x),
        None => {
            let ep = "\\ensuremath{"@;
            if text::starts_with(t, ep) {
                match spec_read_braced_content(t.skip(ep.len() as int)) {
                    Some((c, n)) => Some((c, ep.len() + n)),
                    None => None,
                }
            } else {
                None
            }
        },
    }
}

/// Any other command at the start of `t` (a backslash and letters): its braced
/// argument, after an optional `[..]`, as plain text (empty without one), and how
/// much of `t` it uses; `None` when no letter follows the backslash.
pub open spec fn spec_try_unknown(t: Seq<char>) -> Option<(Seq<char>, nat)> {
    if t.len() == 0 || t[0] != '\\' {
        None
    } else {
        let ce = alpha_end(t, 1);
        if ce == 1 {
            None
        } else {
            let consumed = if ce < t.len() && t[ce as int] == '[' {
                match text::find_char(t.skip(ce as int), ']') {
                    Some(be) => ce + be + 1,
                    None => ce,
                }
            } else {
                ce
            };
            if consumed < t.len() && t[consumed as int] == '{' {
                match spec_read_braced_content(t.skip(consumed as int + 1)) {
                    Some((c, n)) => Some((c, consumed + 1 + n)),
                    None => Some((seq![], consumed)),
                }
            } else {
                Some((seq![], consumed))
            }
        }
    }
}

/// Recognised commands use a non-empty part of the text and show less than it.
pub proof fn lemma_try_bounds(t: Seq<char>)
    ensures
        spec_try_inline(t) matches Some((k, c, n)) ==> 1 <= n <= t.len() && c.len() < t.len(),
        spec_try_special(t) matches Some((r, n)) ==> 1 <= n <= t.len(),
        spec_try_unknown(t) matches Some((c, n)) ==> 1 <= n <= t.len() && c.len() < t.len(),
{
    lemma_inline_prefix(t, 0);
    lemma_special_match(t, 0);
    reveal_strlit("\\href{");
    reveal_strlit("\\url{");
    reveal_strlit("\\verb");
    reveal_strlit("\\ensuremath{");
    let hp = "\\href{"@;
    lemma_read_braced_content(t.skip(hp.len() as int));
    if let Some((url, uc)) = spec_read_braced_content(t.skip(hp.len() as int)) {
        if text::starts_with(t, hp) {
            lemma_read_braced_content(t.skip(hp.len() as int + uc as int).skip(1));
        }
    }
    lemma_read_braced_content(t.skip("\\url{"@.len() as int));
    lemma_read_braced_content(t.skip("\\ensuremath{"@.len() as int));
    let vp = "\\verb"@;
    if text::starts_with(t, vp) && t.len() > vp.len() {
        text::lemma_find_char_some(t.skip(vp.len() as int + 1), t[vp.len() as int]);
    }
    if t.len() > 0 && t[0] == '\\' {
        lemma_scans(t, 1, ']');
        let ce = alpha_end(t, 1);
        if ce < t.len() {
            text::lemma_find_char_some(t.skip(ce as int), ']');
            if let Some(be) = text::find_char(t.skip(ce as int), ']') {
                let consumed = ce + be + 1;
                if consumed < t.len() {
                    lemma_read_braced_content(t.skip(consumed as int + 1));
                }
            }
            if ce + 1 < t.len() {
                lemma_read_braced_content(t.skip(ce as int + 1));
            }
        }
    }
}

proof fn lemma_inline_prefix(t: Seq<char>, k: nat)
    ensures
        inline_prefix_match(t, k) matches Some((kind, c, n)) ==> 1 <= n <= t.len() && c.len()
            < t.len(),
    decreases 5 - k,
{
    if k < 5 {
        let (p, kind) = inline_cmds()[k as int];
        lemma_read_braced_content(t.skip(p.len() as int));
        lemma_inline_prefix(t, k + 1);
    }
}

proof fn lemma_special_match(t: Seq<char>, k: nat)
    ensures
        special_match(t, k) matches Some((r, n)) ==> 1 <= n <= t.len(),
    decreases 24 - k,
{
    if k < 24 {
        let (p, rep) = special_table()[k as int];
        assert forall|j: int| 0 <= j < 24 implies #[trigger] special_table()[j].0.len() >= 2 by {
            reveal_strlit("\\textgreater{}");
            reveal_strlit("\\textless{}");
            reveal_strlit("\\textbackslash{}");
            reveal_strlit("\\ldots{}");
            reveal_strlit("\\textendash{}");
            reveal_strlit("\\textemdash{}");
            reveal_strlit("\\textasciitilde{}");
            reveal_strlit("\\textasciicircum{}");
            reveal_strlit("\\textbar{}");
            reveal_strlit("\\ldots");
            reveal_strlit("\\dots");
            reveal_strlit("\\&");
            reveal_strlit("\\#");
            reveal_strlit("\\_");
            reveal_strlit("\\{");
            reveal_strlit("\\}");
            reveal_strlit("\\%");
            reveal_strlit("\\$");
            reveal_strlit("\\\\");
            reveal_strlit("\\,");
            reveal_strlit("\\;");
            reveal_strlit("\\!");
            reveal_strlit("\\~");
            reveal_strlit("\\^{}");
        }
        lemma_special_match(t, k + 1);
    }
}

// ---------------------------------------------------------------------------
// Stripping
// ---------------------------------------------------------------------------

/// Annotations moved by `by` bytes (offsets wrap around at 2^32).
pub open spec fn shift(anns: Seq<AnnView>, by: u32) -> Seq<AnnView> {
    anns.map_values(
        |a: AnnView| AnnView { start: a.start.wrapping_add(by), end: a.end.wrapping_add(by), kind: a.kind },
    )
}

/// The byte offset (modulo 2^32) at the end of `out`.
pub open spec fn offset(out: Seq<char>) -> u32 {
    (text::utf8_len(out) % 0x1_0000_0000) as u32
}

/// Inline markup of `s` stripped: the plain text and its annotations.
pub open spec fn spec_strip(s: Seq<char>) -> (Seq<char>, Seq<AnnView>)
    decreases s.len(), 1int, s.len() + 1,
{
    strip_from(s, 0, seq![], seq![])
}

/// Stripping from position `i` on, `out` and `anns` produced so far.
pub open spec fn strip_from(s: Seq<char>, i: nat, out: Seq<char>, anns: Seq<AnnView>) -> (
    Seq<char>,
    Seq<AnnView>,
)
    decreases s.len(), 1int, s.len() - i,
{
    if i >= s.len() {
        (out, anns)
    } else {
        let t = s.skip(i as int);
        proof {
            lemma_try_bounds(t);
            reveal_strlit("---");
            reveal_strlit("--");
            reveal_strlit("``");
            reveal_strlit("''");
        }
        if s[i as int] == '\\' {
            match spec_try_inline(t) {
                Some((kind, content, n)) => {
                    let (it, ia) = spec_strip(content);
                    let start = offset(out);
                    let out2 = out + it;
                    let end = offset(out2);
                    let outer = if start < end {
                        seq![AnnView { start, end, kind }]
                    } else {
                        seq![]
                    };
                    strip_from(s, i + n, out2, anns + shift(ia, start) + outer)
                },
                None => match spec_try_special(t) {
                    Some((rep, n)) => strip_from(s, i + n, out + rep, anns),
                    None => match spec_try_unknown(t) {
                        Some((plain, n)) => if plain.len() > 0 {
                            let (it, ia) = spec_strip(plain);
                            strip_from(s, i + n, out + it, anns + shift(ia, offset(out)))
                        } else {
                            strip_from(s, i + n, out, anns)
                        },
                        None => strip_from(s, i + 1, out + seq!['\\'], anns),
                    },
                },
            }
        } else if s[i as int] == '$' {
            proof {
                lemma_scans(s, i + 1, '$');
            }
            let j = past_char(s, i + 1, '$');
            strip_from(s, j, out + s.subrange(i as int, j as int), anns)
        } else if text::starts_with(t, "---"@) {
            strip_from(s, i + 3, out + seq!['\u{2014}'], anns)
        } else if text::starts_with(t, "--"@) {
            strip_from(s, i + 2, out + seq!['\u{2013}'], anns)
        } else if text::starts_with(t, "``"@) {
            strip_from(s, i + 2, out + seq!['\u{201C}'], anns)
        } else if text::starts_with(t, "''"@) {
            strip_from(s, i + 2, out + seq!['\u{201D}'], anns)
        } else if s[i as int] == '`' {
            strip_from(s, i + 1, out + seq!['\u{2018}'], anns)
        } else if s[i as int] == '\'' {
            strip_from(s, i + 1, out + seq!['\u{2019}'], anns)
        } else {
            strip_from(s, i + 1, out + seq![s[i as int]], anns)
        }
    }
}


/// Annotations within `it`, moved past `out`, are within `out + it` (when
/// `out + it` is shorter than 2^32 bytes, so no offset wraps).
proof fn lemma_shift_within(out: Seq<char>, it: Seq<char>, ia: Seq<AnnView>)
    requires
        anns_within(it, ia),
        text::utf8_len(out + it) < 0x1_0000_0000,
    ensures
        anns_within(out + it, shift(ia, offset(out))),
{
    text::lemma_utf8_len_concat(out, it);
    let o = offset(out);
    assert(o == text::utf8_len(out));
    let sh = shift(ia, o);
    assert forall|b: nat| on_char_boundary(it, b) implies on_char_boundary(out + it, b + text::utf8_len(out)) by {
        let j = choose|j: int| 0 <= j <= it.len() && text::utf8_len(#[trigger] it.take(j)) == b;
        assert((out + it).take(out.len() + j) =~= out + it.take(j));
        text::lemma_utf8_len_concat(out, it.take(j));
        assert(text::utf8_len((out + it).take(out.len() + j)) == b + text::utf8_len(out));
    }
    assert forall|k: int| 0 <= k < sh.len() implies {
        let a = #[trigger] sh[k];
        &&& a.start < a.end
        &&& a.end <= text::utf8_len(out + it)
        &&& on_char_boundary(out + it, a.start as nat)
        &&& on_char_boundary(out + it, a.end as nat)
    } by {
        let a = ia[k];
        assert(on_char_boundary(it, a.start as nat));
        assert(on_char_boundary(it, a.end as nat));
        assert(sh[k].start == a.start + o);
        assert(sh[k].end == a.end + o);
    }
}

/// The nonempty annotation over the part of `out + w` after `out`, if any.
proof fn lemma_outer_within(out: Seq<char>, w: Seq<char>, kind: KindView)
    requires
        text::utf8_len(out + w) < 0x1_0000_0000,
    ensures
        anns_within(
            out + w,
            if offset(out) < offset(out + w) {
                seq![AnnView { start: offset(out), end: offset(out + w), kind }]
            } else {
                seq![]
            },
        ),
{
    lemma_boundaries_of_prefix(out, w);
    lemma_boundaries_of_prefix(out + w, seq![]);
    assert((out + w) + Seq::<char>::empty() =~= out + w);
}

/// Stripping keeps what was produced before as the start of its result, and
/// keeps annotations within the text when the result is shorter than 2^32
/// bytes.
proof fn lemma_strip_from_within(s: Seq<char>, i: nat, out: Seq<char>, anns: Seq<AnnView>)
    ensures
        strip_from(s, i, out, anns).0.len() >= out.len(),
        strip_from(s, i, out, anns).0.take(out.len() as int) == out,
        anns_within(out, anns) && text::utf8_len(strip_from(s, i, out, anns).0) < 0x1_0000_0000 ==> anns_within(
            strip_from(s, i, out, anns).0,
            strip_from(s, i, out, anns).1,
        ),
    decreases s.len(), 1int, s.len() - i,
{
    let r = strip_from(s, i, out, anns);
    if i >= s.len() {
        assert(out.take(out.len() as int) =~= out);
        return;
    }
    let t = s.skip(i as int);
    lemma_try_bounds(t);
    reveal_strlit("---");
    reveal_strlit("--");
    reveal_strlit("``");
    reveal_strlit("''");
    let mut w: Seq<char> = seq![];
    let mut anns2: Seq<AnnView> = anns;
    let mut j: nat = i + 1;
    if s[i as int] == '\\' {
        match spec_try_inline(t) {
            Some((kind, content, n)) => {
                let (it, ia) = spec_strip(content);
                lemma_strip_within(content);
                let start = offset(out);
                let out2 = out + it;
                let end = offset(out2);
                let outer = if start < end {
                    seq![AnnView { start, end, kind }]
                } else {
                    seq![]
                };
                w = it;
                anns2 = anns + shift(ia, start) + outer;
                j = i + n;
                lemma_strip_from_within(s, j, out + w, anns2);
                lemma_prefix_bound(out, w, r.0);
                if anns_within(out, anns) && text::utf8_len(r.0) < 0x1_0000_0000 {
                    text::lemma_utf8_len_concat(out, it);
                    lemma_anns_within_extend(out, it, anns);
                    lemma_shift_within(out, it, ia);
                    lemma_outer_within(out, it, kind);
                    lemma_anns_within_concat(out + it, anns, shift(ia, start));
                    lemma_anns_within_concat(out + it, anns + shift(ia, start), outer);
                }
                return;
            },
            None => match spec_try_special(t) {
                Some((rep, n)) => {
                    w = rep;
                    j = i + n;
                },
                None => match spec_try_unknown(t) {
                    Some((plain, n)) => {
                        j = i + n;
                        if plain.len() > 0 {
                            let (it, ia) = spec_strip(plain);
                            lemma_strip_within(plain);
                            w = it;
                            anns2 = anns + shift(ia, offset(out));
                            lemma_strip_from_within(s, j, out + w, anns2);
                            lemma_prefix_bound(out, w, r.0);
                            if anns_within(out, anns) && text::utf8_len(r.0) < 0x1_0000_0000 {
                                text::lemma_utf8_len_concat(out, it);
                                lemma_anns_within_extend(out, it, anns);
                                lemma_shift_within(out, it, ia);
                                lemma_anns_within_concat(out + it, anns, shift(ia, offset(out)));
                            }
                            return;
                        }
                    },
                    None => {
                        w = seq!['\\'];
                    },
                },
            },
        }
    } else if s[i as int] == '$' {
        lemma_scans(s, i + 1, '$');
        j = past_char(s, i + 1, '$');
        w = s.subrange(i as int, j as int);
    } else if text::starts_with(t, "---"@) {
        w = seq!['\u{2014}'];
        j = i + 3;
    } else if text::starts_with(t, "--"@) {
        w = seq!['\u{2013}'];
        j = i + 2;
    } else if text::starts_with(t, "``"@) {
        w = seq!['\u{201C}'];
        j = i + 2;
    } else if text::starts_with(t, "''"@) {
        w = seq!['\u{201D}'];
        j = i + 2;
    } else if s[i as int] == '`' {
        w = seq!['\u{2018}'];
    } else if s[i as int] == '\'' {
        w = seq!['\u{2019}'];
    } else {
        w = seq![s[i as int]];
    }
    assert(r == strip_from(s, j, out + w, anns) || (w.len() == 0 && r == strip_from(s, j, out, anns)));
    if w.len() == 0 {
        assert(out + w =~= out);
    }
    lemma_strip_from_within(s, j, out + w, anns);
    lemma_prefix_bound(out, w, r.0);
    if anns_within(out, anns) && text::utf8_len(r.0) < 0x1_0000_0000 {
        lemma_anns_within_extend(out, w, anns);
    }
}

/// Stripped inline LaTeX annotates within its text.
proof fn lemma_strip_within(s: Seq<char>)
    ensures
        text::utf8_len(spec_strip(s).0) < 0x1_0000_0000 ==> anns_within(spec_strip(s).0, spec_strip(s).1),
    decreases s.len(), 1int, s.len() + 1,
{
    lemma_strip_from_within(s, 0, seq![], seq![]);
}

/// Stripped inline LaTeX annotates nonempty byte ranges of the stripped text,
/// each starting and ending on a character boundary (for a text shorter than
/// 2^32 bytes, the range of the `u32` offsets).
pub proof fn lemma_strip_annotations_within(s: Seq<char>)
    requires
        text::utf8_len(spec_strip(s).0) < 0x1_0000_0000,
    ensures
        anns_within(spec_strip(s).0, spec_strip(s).1),
{
    lemma_strip_within(s);
}

// ---------------------------------------------------------------------------
// Executable recognisers
// ---------------------------------------------------------------------------

fn inline_kind(k: usize) -> (r: AnnotationKind)
    requires
        k < 5,
    ensures
        r@ == inline_cmds()[k as int].1,
{
    if k == 0 {
        AnnotationKind::Bold
    } else if k == 1 || k == 2 {
        AnnotationKind::Italic
    } else if k == 3 {
        AnnotationKind::Underline
    } else {
        AnnotationKind::Code
    }
}

/// A copy of an annotation kind.
pub fn clone_kind(k: &AnnotationKind) -> (r: AnnotationKind)
    ensures
        r@ == k@,
{
    match k {
        AnnotationKind::Bold => AnnotationKind::Bold,
        AnnotationKind::Italic => AnnotationKind::Italic,
        AnnotationKind::Underline => AnnotationKind::Underline,
        AnnotationKind::Code => AnnotationKind::Code,
        AnnotationKind::Strikethrough => AnnotationKind::Strikethrough,
        AnnotationKind::Subscript => AnnotationKind::Subscript,
        AnnotationKind::Superscript => AnnotationKind::Superscript,
        AnnotationKind::Link { url, title } => {
            let t = match title {
                Some(x) => Some(x.clone()),
                None => None,
            };
            AnnotationKind::Link { url: url.clone(), title: t }
        },
        AnnotationKind::Color { value } => AnnotationKind::Color { value: value.clone() },
        AnnotationKind::FontSize { value } => AnnotationKind::FontSize { value: value.clone() },
    }
}

/// Reads a braced group right after the literal prefix `p`, when `t` starts with it.
fn braced_after(t: &[char], p: &str) -> (r: Option<(Vec<char>, usize)>)
    ensures
        !text::starts_with(t@, p@) ==> r is None,
        text::starts_with(t@, p@) ==> (match spec_read_braced_content(t@.skip(p@.len() as int)) {
            Some((c, n)) => r matches Some((rc, rn)) && rc@ == c && rn == p@.len() + n,
            None => r is None,
        }),
{
    if !starts_with_str(t, p) {
        return None;
    }
    let pv = str_chars(p);
    let rest = slice_vec(t, pv.len(), t.len());
    assert(rest@ =~= t@.skip(p@.len() as int));
    match read_braced_chars(rest.as_slice()) {
        Some((c, n)) => {
            proof {
                lemma_read_braced_content(rest@);
                assert(pv.len() + n <= t@.len() == t.len());
            }
            Some((c, pv.len() + n))
        },
        None => None,
    }
}

fn verb_match_exec(t: &[char]) -> (r: Option<(AnnotationKind, Vec<char>, usize)>)
    ensures
        r matches Some((k, c, n)) ==> verb_match(t@) == Some((k@, c@, n as nat)),
        r is None ==> verb_match(t@) is None,
{
    let vp = str_chars("\\verb");
    if !(starts_with_str(t, "\\verb") && t.len() > vp.len()) {
        return None;
    }
    let d = t[vp.len()];
    if is_alphabetic(d) || d == '{' {
        return None;
    }
    let a = vp.len() + 1;
    match find_char_from(t, d, a) {
        Some(e) => {
            let c = slice_vec(t, a, e);
            assert(c@ =~= t@.skip(a as int).take(e - a));
            Some((AnnotationKind::Code, c, e + 1))
        },
        None => None,
    }
}

fn url_match_exec(t: &[char]) -> (r: Option<(AnnotationKind, Vec<char>, usize)>)
    ensures
        r matches Some((k, c, n)) ==> url_match(t@) == Some((k@, c@, n as nat)),
        r is None ==> url_match(t@) is None,
{
    match braced_after(t, "\\url{") {
        Some((u, n)) => {
            let us = chars_string(u.as_slice());
            Some((AnnotationKind::Link { url: us, title: None }, u, n))
        },
        None => verb_match_exec(t),
    }
}

impl LatexExtractor {
    /// Tries to parse an inline formatting command at the start of `text`: the
    /// annotation kind, the braced content and how many characters it uses.
    pub fn try_parse_inline_command(t: &[char]) -> (r: Option<(AnnotationKind, Vec<char>, usize)>)
        ensures
            r matches Some((k, c, n)) ==> spec_try_inline(t@) == Some((k@, c@, n as nat)),
            r is None ==> spec_try_inline(t@) is None,
    {
        let prefixes: [&str; 5] = ["\\textbf{", "\\emph{", "\\textit{", "\\underline{", "\\texttt{"];
        assert(forall|j: int| 0 <= j < 5 ==> prefixes@[j]@ == #[trigger] inline_cmds()[j].0);
        let mut k: usize = 0;
        while k < 5
            invariant
                k <= 5,
                inline_prefix_match(t@, 0) == inline_prefix_match(t@, k as nat),
                forall|j: int| 0 <= j < 5 ==> prefixes@[j]@ == #[trigger] inline_cmds()[j].0,
            decreases 5 - k,
        {
            match braced_after(t, prefixes[k]) {
                Some((c, n)) => {
                    return Some((inline_kind(k), c, n));
                },
                None => {},
            }
            k = k + 1;
        }
        let hp = str_chars("\\href{");
        match braced_after(t, "\\href{") {
            Some((url, n1)) => {
                proof {
                    lemma_read_braced_content(t@.skip(hp@.len() as int));
                }
                let uc = n1 - hp.len();
                if n1 < t.len() && t[n1] == '{' {
                    let rest = slice_vec(t, n1 + 1, t.len());
                    assert(rest@ =~= t@.skip(hp@.len() as int + uc as int).skip(1));
                    match read_braced_chars(rest.as_slice()) {
                        Some((lt, tc)) => {
                            proof {
                                lemma_read_braced_content(rest@);
                                assert(n1 + 1 + tc <= t@.len() == t.len());
                            }
                            let us = chars_string(url.as_slice());
                            return Some(
                                (AnnotationKind::Link { url: us, title: None }, lt, n1 + 1 + tc),
                            );
                        },
                        None => {},
                    }
                } else {
                    assert(!(t@.skip(hp@.len() as int + uc as int).len() > 0 && t@.skip(
                        hp@.len() as int + uc as int,
                    )[0] == '{'));
                }
            },
            None => {},
        }
        url_match_exec(t)
    }

    /// Tries to parse a symbol command (or `\ensuremath{..}`) at the start of `text`:
    /// the replacement and how many characters it uses.
    pub fn try_parse_special_command(t: &[char]) -> (r: Option<(Vec<char>, usize)>)
        ensures
            r matches Some((rep, n)) ==> spec_try_special(t@) == Some((rep@, n as nat)),
            r is None ==> spec_try_special(t@) is None,
    {
        let table: [(&str, &str); 24] = [
            ("\\textgreater{}", ">"),
            ("\\textless{}", "<"),
            ("\\textbackslash{}", "\\"),
            ("\\ldots{}", "\u{2026}"),
            ("\\textendash{}", "\u{2013}"),
            ("\\textemdash{}", "\u{2014}"),
            ("\\textasciitilde{}", "~"),
            ("\\textasciicircum{}", "^"),
            ("\\textbar{}", "|"),
            ("\\ldots", "\u{2026}"),
            ("\\dots", "\u{2026}"),
            ("\\&", "&"),
            ("\\#", "#"),
            ("\\_", "_"),
            ("\\{", "{"),
            ("\\}", "}"),
            ("\\%", "%"),
            ("\\$", "$"),
            ("\\\\", "\n"),
            ("\\,", "\u{2009}"),
            ("\\;", " "),
            ("\\!", ""),
            ("\\~", "~"),
            ("\\^{}", "^"),
        ];
        assert(forall|j: int|
            0 <= j < 24 ==> table@[j].0@ == #[trigger] special_table()[j].0 && table@[j].1@
                == special_table()[j].1);
        let mut k: usize = 0;
        while k < 24
            invariant
                k <= 24,
                special_match(t@, 0) == special_match(t@, k as nat),
                forall|j: int|
                    0 <= j < 24 ==> table@[j].0@ == #[trigger] special_table()[j].0 && table@[j].1@
                        == special_table()[j].1,
            decreases 24 - k,
        {
            let (p, rep) = table[k];
            if starts_with_str(t, p) {
                let pv = str_chars(p);
                return Some((str_chars(rep), pv.len()));
            }
            k = k + 1;
        }
        braced_after(t, "\\ensuremath{")
    }

    /// Tries to skip any other command at the start of `text`: its braced argument
    /// (after an optional `[..]`) as plain text, empty without one, and how many
    /// characters it uses; `None` when no letter follows a leading backslash.
    pub fn try_skip_unknown_command(t: &[char]) -> (r: Option<(Vec<char>, usize)>)
        ensures
            r matches Some((c, n)) ==> spec_try_unknown(t@) == Some((c@, n as nat)),
            r is None ==> spec_try_unknown(t@) is None,
    {
        if t.len() == 0 || t[0] != '\\' {
            return None;
        }
        let mut ce: usize = 1;
        while ce < t.len() && is_alphabetic(t[ce])
            invariant
                1 <= ce <= t@.len(),
                alpha_end(t@, 1) == alpha_end(t@, ce as nat),
            decreases t@.len() - ce,
        {
            ce = ce + 1;
        }
        if ce == 1 {
            return None;
        }
        let consumed = if ce < t.len() && t[ce] == '[' {
            match find_char_from(t, ']', ce) {
                Some(be) => be + 1,
                None => ce,
            }
        } else {
            ce
        };
        if consumed < t.len() && t[consumed] == '{' {
            let rest = slice_vec(t, consumed + 1, t.len());
            assert(rest@ =~= t@.skip(consumed as int + 1));
            match read_braced_chars(rest.as_slice()) {
                Some((c, n)) => {
                    proof {
                        lemma_read_braced_content(rest@);
                        assert(consumed + 1 + n <= t@.len() == t.len());
                    }
                    Some((c, consumed + 1 + n))
                },
                None => Some((Vec::new(), consumed)),
            }
        } else {
            Some((Vec::new(), consumed))
        }
    }
}


// ---------------------------------------------------------------------------
// Executable stripping
// ---------------------------------------------------------------------------

/// Appends `piece` to `out`, keeping `bytes` the UTF-8 length of `out`.
pub(crate) fn push_text(out: &mut Vec<char>, bytes: &mut u128, piece: &[char])
    requires
        *old(bytes) == text::utf8_len(old(out)@),
    ensures
        final(out)@ == old(out)@ + piece@,
        *final(bytes) == text::utf8_len(final(out)@),
{
    let n = text::utf8_len_exec(piece);
    proof {
        text::lemma_utf8_len_concat(out@, piece@);
        text::lemma_utf8_len_bound(out@);
        text::lemma_utf8_len_bound(piece@);
        assert(out@.len() == out.len());
        assert(piece@.len() == piece.len());
    }
    push_all(out, piece);
    *bytes = *bytes + n;
}

/// Appends `inner` moved by `by` bytes.
fn push_shifted(anns: &mut Vec<TextAnnotation>, inner: &[TextAnnotation], by: u32)
    ensures
        anns_view(final(anns)@) == anns_view(old(anns)@) + shift(anns_view(inner@), by),
{
    let ghost start = anns_view(anns@);
    let ghost sh = shift(anns_view(inner@), by);
    let mut k: usize = 0;
    assert(sh.take(0) =~= Seq::<AnnView>::empty());
    assert(anns_view(anns@) =~= start + sh.take(0));
    while k < inner.len()
        invariant
            k <= inner@.len(),
            sh == shift(anns_view(inner@), by),
            anns_view(anns@) == start + sh.take(k as int),
        decreases inner@.len() - k,
    {
        let a = &inner[k];
        let na = TextAnnotation {
            start: a.start.wrapping_add(by),
            end: a.end.wrapping_add(by),
            kind: clone_kind(&a.kind),
        };
        let ghost before = anns@;
        anns.push(na);
        proof {
            assert(sh.take(k + 1) =~= sh.take(k as int).push(sh[k as int]));
            assert(anns_view(anns@) =~= anns_view(before).push(na@));
        }
        k = k + 1;
    }
    assert(sh.take(inner@.len() as int) =~= sh);
}

/// The byte offset (modulo 2^32) for a byte length.
pub(crate) fn offset_exec(bytes: u128) -> (r: u32)
    ensures
        r == (bytes % 0x1_0000_0000) as u32,
{
    (bytes % 0x1_0000_0000) as u32
}

impl LatexExtractor {
    /// Strips inline markup from characters: the plain text and its annotations
    /// over byte ranges of that text.
    pub fn strip_inline_chars(s: &[char]) -> (r: (Vec<char>, Vec<TextAnnotation>))
        ensures
            (r.0@, anns_view(r.1@)) == spec_strip(s@),
        decreases s@.len(),
    {
        let mut out: Vec<char> = Vec::new();
        let mut anns: Vec<TextAnnotation> = Vec::new();
        let mut bytes: u128 = 0;
        let mut i: usize = 0;
        let n = s.len();
        assert(anns_view(anns@) =~= Seq::<AnnView>::empty());
        while i < n
            invariant
                i <= n == s@.len(),
                bytes == text::utf8_len(out@),
                spec_strip(s@) == strip_from(s@, i as nat, out@, anns_view(anns@)),
            decreases n - i,
        {
            let ghost o = out@;
            let ghost a = anns_view(anns@);
            let t = slice_vec(s, i, n);
            assert(t@ =~= s@.skip(i as int));
            proof {
                lemma_try_bounds(t@);
                reveal_strlit("---");
                reveal_strlit("--");
                reveal_strlit("``");
                reveal_strlit("''");
            }
            if s[i] == '\\' {
                match Self::try_parse_inline_command(t.as_slice()) {
                    Some((kind, content, used)) => {
                        let (it, ia) = Self::strip_inline_chars(content.as_slice());
                        let start = offset_exec(bytes);
                        push_text(&mut out, &mut bytes, it.as_slice());
                        let end = offset_exec(bytes);
                        push_shifted(&mut anns, ia.as_slice(), start);
                        if start < end {
                            let ghost before = anns@;
                            let na = TextAnnotation { start, end, kind };
                            anns.push(na);
                            assert(anns_view(anns@) =~= anns_view(before).push(na@));
                        }
                        proof {
                            let outer = if start < end {
                                seq![AnnView { start, end, kind: kind@ }]
                            } else {
                                seq![]
                            };
                            assert(anns_view(anns@) =~= a + shift(anns_view(ia@), start) + outer);
                        }
                        i = i + used;
                        continue;
                    },
                    None => {},
                }
                match Self::try_parse_special_command(t.as_slice()) {
                    Some((rep, used)) => {
                        push_text(&mut out, &mut bytes, rep.as_slice());
                        i = i + used;
                        continue;
                    },
                    None => {},
                }
                match Self::try_skip_unknown_command(t.as_slice()) {
                    Some((plain, used)) => {
                        if plain.len() > 0 {
                            let (it, ia) = Self::strip_inline_chars(plain.as_slice());
                            let start = offset_exec(bytes);
                            push_text(&mut out, &mut bytes, it.as_slice());
                            push_shifted(&mut anns, ia.as_slice(), start);
                        }
                        i = i + used;
                        continue;
                    },
                    None => {},
                }
                let bs: [char; 1] = ['\\'];
                push_text(&mut out, &mut bytes, &bs);
                assert(bs@ =~= seq!['\\']);
                i = i + 1;
            } else if s[i] == '$' {
                proof {
                    lemma_scans(s@, (i + 1) as nat, '$');
                }
                let mut j = i + 1;
                while j < n && s[j] != '$'
                    invariant
                        i < j <= n == s@.len(),
                        past_char(s@, (i + 1) as nat, '$') == past_char(s@, j as nat, '$'),
                    decreases n - j,
                {
                    j = j + 1;
                }
                if j < n {
                    j = j + 1;
                }
                let piece = slice_vec(s, i, j);
                push_text(&mut out, &mut bytes, piece.as_slice());
                i = j;
            } else if starts_with_str(t.as_slice(), "---") {
                let c: [char; 1] = ['\u{2014}'];
                push_text(&mut out, &mut bytes, &c);
                assert(c@ =~= seq!['\u{2014}']);
                i = i + 3;
            } else if starts_with_str(t.as_slice(), "--") {
                let c: [char; 1] = ['\u{2013}'];
                push_text(&mut out, &mut bytes, &c);
                assert(c@ =~= seq!['\u{2013}']);
                i = i + 2;
            } else if starts_with_str(t.as_slice(), "``") {
                let c: [char; 1] = ['\u{201C}'];
                push_text(&mut out, &mut bytes, &c);
                assert(c@ =~= seq!['\u{201C}']);
                i = i + 2;
            } else if starts_with_str(t.as_slice(), "''") {
                let c: [char; 1] = ['\u{201D}'];
                push_text(&mut out, &mut bytes, &c);
                assert(c@ =~= seq!['\u{201D}']);
                i = i + 2;
            } else if s[i] == '`' {
                let c: [char; 1] = ['\u{2018}'];
                push_text(&mut out, &mut bytes, &c);
                assert(c@ =~= seq!['\u{2018}']);
                i = i + 1;
            } else if s[i] == '\'' {
                let c: [char; 1] = ['\u{2019}'];
                push_text(&mut out, &mut bytes, &c);
                assert(c@ =~= seq!['\u{2019}']);
                i = i + 1;
            } else {
                let c: [char; 1] = [s[i]];
                push_text(&mut out, &mut bytes, &c);
                assert(c@ =~= seq![s@[i as int]]);
                i = i + 1;
            }
        }
        (out, anns)
    }

    /// Strips inline LaTeX formatting commands from text, returning the plain text
    /// and annotations over byte ranges of it.
    pub fn strip_inline_commands(input: &str) -> (r: (String, Vec<TextAnnotation>))
        ensures
            (r.0@, anns_view(r.1@)) == spec_strip(input@),
    {
        let s = str_chars(input);
        let (out, anns) = Self::strip_inline_chars(s.as_slice());
        (chars_string(out.as_slice()), anns)
    }
}

} // verus!
