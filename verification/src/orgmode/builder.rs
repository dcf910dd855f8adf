//! The line-based Org Mode document builder: preamble directives, property
//! drawers, headings, source/quote/example/other blocks, tables, lists, footnotes,
//! images and paragraphs with inline markup, links and internal links.

use vstd::prelude::*;
use crate::text;
use crate::text::{
    chars_string, contains_str, find_char_exec, find_str, push_all, push_str, slice_vec,
    split_char_exec, starts_with_str, str_chars, trim_vec,
};
use crate::types::{AnnView, KindView, strs};
use crate::text::{join_spaces, join_with_spaces};
use crate::document::{
    add_elem, add_rels, add_uri, add_uris, byte_slice, link_kind, link_kind_of, code_elem, empty_doc, footnote_elem, get_byte_range,
    index_u32, meta_elem, plain, table_elem, DocView, ElemView,
    ElementKind, InternalDocument, InternalElement, RelKind, RelTarget, RelView, Relationship, TargetView,
    UriKind, UriRef, UriView,
};
use super::{
    footnotes_from, heading_line, heading_stars, image_url, item_text, list_item, org_link, spec_inline,
    structural_start, OrgModeExtractor,
};

verus! {

// ---------------------------------------------------------------------------
// Small text helpers
// ---------------------------------------------------------------------------

/// ASCII letters in upper case, everything else as it is.
pub open spec fn ascii_upper(s: Seq<char>) -> Seq<char> {
    s.map_values(|c: char| if 'a' <= c <= 'z' { ((c as u32) - 32) as char } else { c })
}

/// ASCII letters raised.
fn to_ascii_upper(s: &[char]) -> (r: Vec<char>)
    ensures
        r@ == ascii_upper(s@),
{
    let mut r: Vec<char> = Vec::new();
    let mut k: usize = 0;
    while k < s.len()
        invariant
            k <= s@.len(),
            r@ == ascii_upper(s@.take(k as int)),
        decreases s@.len() - k,
    {
        let c = s[k];
        let d = if 'a' <= c && c <= 'z' {
            ((c as u8) - 32) as char
        } else {
            c
        };
        r.push(d);
        assert(ascii_upper(s@.take(k + 1)) =~= ascii_upper(s@.take(k as int)).push(d));
        k = k + 1;
    }
    assert(s@.take(k as int) =~= s@);
    r
}

/// What `str::to_uppercase` gives for `s` (full Unicode case mapping).
pub uninterp spec fn uppercase_text(s: Seq<char>) -> Seq<char>;

/// What `str::to_lowercase` gives for `s` (full Unicode case mapping).
pub uninterp spec fn lowercase_text(s: Seq<char>) -> Seq<char>;

/// All characters of `s` are ASCII.
pub open spec fn all_ascii(s: Seq<char>) -> bool {
    forall|k: int| 0 <= k < s.len() ==> (s[k] as u32) < 0x80
}

/// ASCII letters in lower case, everything else as it is.
pub open spec fn ascii_lower(s: Seq<char>) -> Seq<char> {
    s.map_values(|c: char| if 'A' <= c <= 'Z' { ((c as u32) + 32) as char } else { c })
}

/// Calls `str::to_uppercase`; the result is named `uppercase_text(s)`. On ASCII
/// text it raises the ASCII letters and leaves the rest.
#[verifier::external_body]
fn to_uppercase(s: &str) -> (r: String)
    ensures
        r@ == uppercase_text(s@),
        all_ascii(s@) ==> r@ == ascii_upper(s@),
{
    s.to_uppercase()
}

/// Calls `str::to_lowercase`; the result is named `lowercase_text(s)`. On ASCII
/// text it lowers the ASCII letters and leaves the rest.
#[verifier::external_body]
pub(crate) fn to_lowercase(s: &str) -> (r: String)
    ensures
        r@ == lowercase_text(s@),
        all_ascii(s@) ==> r@ == ascii_lower(s@),
{
    s.to_lowercase()
}

/// The end of the run of non-whitespace starting at `i`.
pub open spec fn word_end(t: Seq<char>, i: nat) -> nat
    decreases t.len() - i,
{
    if i >= t.len() || text::is_ws(t[i as int]) {
        i
    } else {
        word_end(t, i + 1)
    }
}

/// The end of the run of whitespace starting at `i`.
pub open spec fn space_end(t: Seq<char>, i: nat) -> nat
    decreases t.len() - i,
{
    if i >= t.len() || !text::is_ws(t[i as int]) {
        i
    } else {
        space_end(t, i + 1)
    }
}

pub proof fn lemma_runs(t: Seq<char>, i: nat)
    ensures
        i <= t.len() ==> i <= word_end(t, i) <= t.len(),
        i <= t.len() ==> i <= space_end(t, i) <= t.len(),
        word_end(t, i) < t.len() && i <= t.len() ==> text::is_ws(t[word_end(t, i) as int]),
        space_end(t, i) < t.len() && i <= t.len() ==> !text::is_ws(t[space_end(t, i) as int]),
    decreases t.len() - i,
{
    if i < t.len() {
        lemma_runs(t, i + 1);
    }
}

/// The second whitespace-separated word of a trimmed line that starts with a
/// word (`split_whitespace().nth(1)`).
pub open spec fn second_word(t: Seq<char>) -> Option<Seq<char>> {
    let a = space_end(t, word_end(t, 0));
    if a < t.len() {
        Some(t.subrange(a as int, word_end(t, a) as int))
    } else {
        None
    }
}

/// The first whitespace-separated word of a trimmed line.
pub open spec fn first_word(t: Seq<char>) -> Seq<char> {
    t.take(word_end(t, 0) as int)
}

fn word_end_exec(t: &[char], i: usize) -> (r: usize)
    requires
        i <= t@.len(),
    ensures
        r == word_end(t@, i as nat),
{
    let mut k = i;
    while k < t.len() && !text::is_whitespace(t[k])
        invariant
            i <= k <= t@.len(),
            word_end(t@, i as nat) == word_end(t@, k as nat),
        decreases t@.len() - k,
    {
        k = k + 1;
    }
    k
}

fn space_end_exec(t: &[char], i: usize) -> (r: usize)
    requires
        i <= t@.len(),
    ensures
        r == space_end(t@, i as nat),
{
    let mut k = i;
    while k < t.len() && text::is_whitespace(t[k])
        invariant
            i <= k <= t@.len(),
            space_end(t@, i as nat) == space_end(t@, k as nat),
        decreases t@.len() - k,
    {
        k = k + 1;
    }
    k
}

/// The second word of `t`.
fn second_word_exec(t: &[char]) -> (r: Option<Vec<char>>)
    ensures
        r matches Some(w) ==> second_word(t@) == Some(w@),
        r is None ==> second_word(t@) is None,
{
    proof {
        lemma_runs(t@, 0);
        lemma_runs(t@, word_end(t@, 0));
    }
    let w = word_end_exec(t, 0);
    let a = space_end_exec(t, w);
    if a < t.len() {
        proof {
            lemma_runs(t@, a as nat);
        }
        let e = word_end_exec(t, a);
        Some(slice_vec(t, a, e))
    } else {
        None
    }
}

// ---------------------------------------------------------------------------
// Block scanners
// ---------------------------------------------------------------------------

/// The preamble directives `#+KEY: value` from line `i` on, with the key trimmed
/// and upper-cased and the value trimmed (entries with an empty value dropped),
/// up to the first other non-empty line or block delimiter: the entries and where
/// the body starts.
pub open spec fn preamble_from(ls: Seq<Seq<char>>, i: nat, entries: Seq<(Seq<char>, Seq<char>)>) -> (
    Seq<(Seq<char>, Seq<char>)>,
    nat,
)
    decreases ls.len() - i,
{
    if i >= ls.len() {
        (entries, i)
    } else {
        let t = text::trim(ls[i as int]);
        if text::starts_with(t, "#+"@) {
            let rest = t.skip(2);
            let ru = ascii_upper(rest);
            if text::starts_with(ru, "BEGIN"@) || text::starts_with(ru, "END"@) {
                (entries, i)
            } else {
                match text::find_char(rest, ':') {
                    Some(c) => {
                        let key = uppercase_text(text::trim(rest.take(c as int)));
                        let value = text::trim(rest.skip(c + 1int));
                        preamble_from(
                            ls,
                            i + 1,
                            if value.len() > 0 {
                                entries.push((key, value))
                            } else {
                                entries
                            },
                        )
                    },
                    None => preamble_from(ls, i + 1, entries),
                }
            }
        } else if t.len() > 0 {
            (entries, i)
        } else {
            preamble_from(ls, i + 1, entries)
        }
    }
}

/// The entries of a property drawer from line `j` on, up to `:END:` (consumed):
/// `:KEY: value` lines with a non-empty key, the value trimmed.
pub open spec fn props_from(ls: Seq<Seq<char>>, j: nat, props: Seq<(Seq<char>, Seq<char>)>) -> (
    Seq<(Seq<char>, Seq<char>)>,
    nat,
)
    decreases ls.len() - j,
{
    if j >= ls.len() {
        (props, j)
    } else {
        let pt = text::trim(ls[j as int]);
        if pt == ":END:"@ {
            (props, j + 1)
        } else {
            let props2 = if pt.len() > 1 && pt[0] == ':' {
                match text::find_char(pt.skip(1), ':') {
                    Some(c2) => {
                        let key = pt.subrange(1, 1 + c2 as int);
                        let value = text::trim(pt.skip(2 + c2 as int));
                        if key.len() > 0 {
                            props.push((key, value))
                        } else {
                            props
                        }
                    },
                    None => props,
                }
            } else {
                props
            };
            props_from(ls, j + 1, props2)
        }
    }
}

/// The raw lines of a block from line `j` on, up to a line whose trimmed text
/// starts with one of the end markers (consumed): joined with line breaks, where
/// a line after an empty start adds no break.
pub open spec fn block_from(ls: Seq<Seq<char>>, j: nat, eu: Seq<char>, el: Seq<char>, content: Seq<char>) -> (
    Seq<char>,
    nat,
)
    decreases ls.len() - j,
{
    if j >= ls.len() {
        (content, j)
    } else {
        let t = text::trim(ls[j as int]);
        if text::starts_with(t, eu) || text::starts_with(t, el) {
            (content, j + 1)
        } else {
            let sep = if content.len() > 0 {
                "\n"@
            } else {
                seq![]
            };
            block_from(ls, j + 1, eu, el, content + sep + ls[j as int])
        }
    }
}

/// The non-empty trimmed lines of a quote block from line `j` on, up to the end
/// marker (consumed).
pub open spec fn quote_from(ls: Seq<Seq<char>>, j: nat, paras: Seq<Seq<char>>) -> (Seq<Seq<char>>, nat)
    decreases ls.len() - j,
{
    if j >= ls.len() {
        (paras, j)
    } else {
        let t = text::trim(ls[j as int]);
        if text::starts_with(t, "#+END_QUOTE"@) || text::starts_with(t, "#+end_quote"@) {
            (paras, j + 1)
        } else {
            quote_from(ls, j + 1, if t.len() > 0 {
                paras.push(t)
            } else {
                paras
            })
        }
    }
}

/// The trimmed non-empty pieces of a table line split at `|`.
pub open spec fn pipe_cells(parts: Seq<Seq<char>>) -> Seq<Seq<char>>
    decreases parts.len(),
{
    if parts.len() == 0 {
        seq![]
    } else {
        let r = pipe_cells(parts.drop_last());
        let c = text::trim(parts.last());
        if c.len() > 0 {
            r.push(c)
        } else {
            r
        }
    }
}

/// A table line: starts and ends with `|`.
pub open spec fn table_line(t: Seq<char>) -> bool {
    text::starts_with(t, "|"@) && text::ends_with(t, "|"@)
}

/// The rows of a table from line `j` on, while lines are table lines; separator
/// lines (holding `---` or `+-`) are skipped, and so are rows without cells.
pub open spec fn table_from(ls: Seq<Seq<char>>, j: nat, rows: Seq<Seq<Seq<char>>>) -> (Seq<Seq<Seq<char>>>, nat)
    decreases ls.len() - j,
{
    if j >= ls.len() {
        (rows, j)
    } else {
        let t = text::trim(ls[j as int]);
        if !table_line(t) {
            (rows, j)
        } else if text::contains(t, "---"@) || text::contains(t, "+-"@) {
            table_from(ls, j + 1, rows)
        } else {
            let cells = pipe_cells(text::split_char(t, '|'));
            table_from(ls, j + 1, if cells.len() > 0 {
                rows.push(cells)
            } else {
                rows
            })
        }
    }
}

/// The preamble directives.
pub fn scan_preamble(ls: &Vec<Vec<char>>) -> (r: (Vec<(String, String)>, usize))
    ensures
        (crate::types::pairs_view(r.0@), r.1 as nat) == preamble_from(text::views(ls@), 0, seq![]),
{
    let ghost lv = text::views(ls@);
    let mut entries: Vec<(String, String)> = Vec::new();
    let mut i: usize = 0;
    assert(crate::types::pairs_view(entries@) =~= Seq::<(Seq<char>, Seq<char>)>::empty());
    while i < ls.len()
        invariant
            i <= ls@.len(),
            lv == text::views(ls@),
            preamble_from(lv, 0, seq![]) == preamble_from(lv, i as nat, crate::types::pairs_view(entries@)),
        ensures
            preamble_from(lv, 0, seq![]) == (crate::types::pairs_view(entries@), i as nat),
        decreases ls@.len() - i,
    {
        assert(lv[i as int] == ls@[i as int]@);
        let t = trim_vec(ls[i].as_slice());
        proof {
            reveal_strlit("#+");
        }
        if starts_with_str(t.as_slice(), "#+") {
            let rest = slice_vec(t.as_slice(), 2, t.len());
            assert(rest@ =~= t@.skip(2));
            let ru = to_ascii_upper(rest.as_slice());
            if starts_with_str(ru.as_slice(), "BEGIN") || starts_with_str(ru.as_slice(), "END") {
                break;
            }
            match find_char_exec(rest.as_slice(), ':') {
                Some(c) => {
                    proof {
                        text::lemma_find_char_some(rest@, ':');
                    }
                    let key_raw = slice_vec(rest.as_slice(), 0, c);
                    assert(key_raw@ =~= rest@.take(c as int));
                    let key_t = trim_vec(key_raw.as_slice());
                    let key_s = chars_string(key_t.as_slice());
                    let key = to_uppercase(key_s.as_str());
                    let val_raw = slice_vec(rest.as_slice(), c + 1, rest.len());
                    assert(val_raw@ =~= rest@.skip(c + 1));
                    let value = trim_vec(val_raw.as_slice());
                    if value.len() > 0 {
                        let ghost before = crate::types::pairs_view(entries@);
                        let vs = chars_string(value.as_slice());
                        entries.push((key, vs));
                        assert(crate::types::pairs_view(entries@) =~= before.push((key@, vs@)));
                    }
                },
                None => {},
            }
        } else if t.len() > 0 {
            break;
        }
        i = i + 1;
    }
    (entries, i)
}

/// The entries of a property drawer starting at line `j`, and the line after it.
pub fn scan_props(ls: &Vec<Vec<char>>, j: usize) -> (r: (Vec<(String, String)>, usize))
    requires
        j <= ls@.len(),
    ensures
        (crate::types::pairs_view(r.0@), r.1 as nat) == props_from(text::views(ls@), j as nat, seq![]),
        j <= r.1 <= ls@.len(),
{
    let ghost lv = text::views(ls@);
    let mut props: Vec<(String, String)> = Vec::new();
    let mut k = j;
    assert(crate::types::pairs_view(props@) =~= Seq::<(Seq<char>, Seq<char>)>::empty());
    while k < ls.len()
        invariant
            j <= k <= ls@.len(),
            lv == text::views(ls@),
            props_from(lv, j as nat, seq![]) == props_from(lv, k as nat, crate::types::pairs_view(props@)),
        ensures
            j <= k <= ls@.len(),
            props_from(lv, j as nat, seq![]) == (crate::types::pairs_view(props@), k as nat),
        decreases ls@.len() - k,
    {
        assert(lv[k as int] == ls@[k as int]@);
        let pt = trim_vec(ls[k].as_slice());
        if text::slice_eq(pt.as_slice(), &[':', 'E', 'N', 'D', ':']) {
            assert(pt@ == ":END:"@) by {
                reveal_strlit(":END:");
                assert(seq![':', 'E', 'N', 'D', ':'] =~= ":END:"@);
            }
            return (props, k + 1);
        }
        proof {
            reveal_strlit(":END:");
            if pt@ == ":END:"@ {
                assert(pt@ =~= seq![':', 'E', 'N', 'D', ':']);
            }
        }
        if pt.len() > 1 && pt[0] == ':' {
            let tail = slice_vec(pt.as_slice(), 1, pt.len());
            assert(tail@ =~= pt@.skip(1));
            match find_char_exec(tail.as_slice(), ':') {
                Some(c2) => {
                    proof {
                        text::lemma_find_char_some(tail@, ':');
                    }
                    let key = slice_vec(pt.as_slice(), 1, 1 + c2);
                    let vr = slice_vec(pt.as_slice(), 2 + c2, pt.len());
                    assert(vr@ =~= pt@.skip(2 + c2));
                    let value = trim_vec(vr.as_slice());
                    if key.len() > 0 {
                        let ghost before = crate::types::pairs_view(props@);
                        let ks = chars_string(key.as_slice());
                        let vs = chars_string(value.as_slice());
                        props.push((ks, vs));
                        assert(crate::types::pairs_view(props@) =~= before.push((ks@, vs@)));
                    }
                },
                None => {},
            }
        }
        k = k + 1;
    }
    (props, k)
}

/// The content of a block starting at line `j`, and the line after its end marker.
pub fn scan_block(ls: &Vec<Vec<char>>, j: usize, eu: &[char], el: &[char]) -> (r: (Vec<char>, usize))
    requires
        j <= ls@.len(),
    ensures
        (r.0@, r.1 as nat) == block_from(text::views(ls@), j as nat, eu@, el@, seq![]),
        j <= r.1 <= ls@.len(),
{
    let ghost lv = text::views(ls@);
    let mut content: Vec<char> = Vec::new();
    let mut k = j;
    while k < ls.len()
        invariant
            j <= k <= ls@.len(),
            lv == text::views(ls@),
            block_from(lv, j as nat, eu@, el@, seq![]) == block_from(lv, k as nat, eu@, el@, content@),
        ensures
            j <= k <= ls@.len(),
            block_from(lv, j as nat, eu@, el@, seq![]) == (content@, k as nat),
        decreases ls@.len() - k,
    {
        assert(lv[k as int] == ls@[k as int]@);
        let t = trim_vec(ls[k].as_slice());
        if text::starts_with_exec(t.as_slice(), eu) || text::starts_with_exec(t.as_slice(), el) {
            return (content, k + 1);
        }
        let ghost before = content@;
        if content.len() > 0 {
            push_str(&mut content, "\n");
        } else {
            assert(before + Seq::<char>::empty() =~= before);
        }
        push_all(&mut content, ls[k].as_slice());
        k = k + 1;
    }
    (content, k)
}

/// The paragraphs of a quote block starting at line `j`, and the line after it.
pub fn scan_quote(ls: &Vec<Vec<char>>, j: usize) -> (r: (Vec<Vec<char>>, usize))
    requires
        j <= ls@.len(),
    ensures
        (text::views(r.0@), r.1 as nat) == quote_from(text::views(ls@), j as nat, seq![]),
        j <= r.1 <= ls@.len(),
{
    let ghost lv = text::views(ls@);
    let mut paras: Vec<Vec<char>> = Vec::new();
    let mut k = j;
    assert(text::views(paras@) =~= Seq::<Seq<char>>::empty());
    while k < ls.len()
        invariant
            j <= k <= ls@.len(),
            lv == text::views(ls@),
            quote_from(lv, j as nat, seq![]) == quote_from(lv, k as nat, text::views(paras@)),
        ensures
            j <= k <= ls@.len(),
            quote_from(lv, j as nat, seq![]) == (text::views(paras@), k as nat),
        decreases ls@.len() - k,
    {
        assert(lv[k as int] == ls@[k as int]@);
        let t = trim_vec(ls[k].as_slice());
        if starts_with_str(t.as_slice(), "#+END_QUOTE") || starts_with_str(t.as_slice(), "#+end_quote") {
            return (paras, k + 1);
        }
        if t.len() > 0 {
            let ghost before = text::views(paras@);
            let ghost tv = t@;
            paras.push(t);
            assert(text::views(paras@) =~= before.push(tv));
        }
        k = k + 1;
    }
    (paras, k)
}

/// The trimmed non-empty cells of a table line.
fn pipe_cells_of(t: &[char]) -> (r: Vec<String>)
    ensures
        strs(r@) == pipe_cells(text::split_char(t@, '|')),
{
    let parts = split_char_exec(t, '|');
    let ghost ps = text::views(parts@);
    let mut cells: Vec<String> = Vec::new();
    let mut k: usize = 0;
    assert(ps.take(0) =~= Seq::<Seq<char>>::empty());
    assert(strs(cells@) =~= Seq::<Seq<char>>::empty());
    while k < parts.len()
        invariant
            k <= parts@.len(),
            ps == text::views(parts@),
            strs(cells@) == pipe_cells(ps.take(k as int)),
        decreases parts@.len() - k,
    {
        let c = trim_vec(parts[k].as_slice());
        assert(ps.take(k + 1).drop_last() =~= ps.take(k as int));
        assert(ps.take(k + 1).last() == parts@[k as int]@);
        if c.len() > 0 {
            let cs = chars_string(c.as_slice());
            let ghost before = cells@;
            cells.push(cs);
            assert(strs(cells@) =~= strs(before).push(c@));
        }
        k = k + 1;
    }
    assert(ps.take(parts@.len() as int) =~= ps);
    cells
}

/// Whether a trimmed line is a table line.
fn is_table_line(t: &[char]) -> (r: bool)
    ensures
        r == table_line(t@),
{
    let bar = str_chars("|");
    starts_with_str(t, "|") && text::ends_with_exec(t, bar.as_slice())
}

/// The rows of a table starting at line `j`, and the first line after it.
pub fn scan_table(ls: &Vec<Vec<char>>, j: usize) -> (r: (Vec<Vec<String>>, usize))
    requires
        j <= ls@.len(),
    ensures
        (crate::types::rows_view(r.0@), r.1 as nat) == table_from(text::views(ls@), j as nat, seq![]),
        j <= r.1 <= ls@.len(),
{
    let ghost lv = text::views(ls@);
    let mut rows: Vec<Vec<String>> = Vec::new();
    let mut k = j;
    assert(crate::types::rows_view(rows@) =~= Seq::<Seq<Seq<char>>>::empty());
    while k < ls.len()
        invariant
            j <= k <= ls@.len(),
            lv == text::views(ls@),
            table_from(lv, j as nat, seq![]) == table_from(lv, k as nat, crate::types::rows_view(rows@)),
        ensures
            j <= k <= ls@.len(),
            table_from(lv, j as nat, seq![]) == (crate::types::rows_view(rows@), k as nat),
        decreases ls@.len() - k,
    {
        assert(lv[k as int] == ls@[k as int]@);
        let t = trim_vec(ls[k].as_slice());
        if !is_table_line(t.as_slice()) {
            break;
        }
        if contains_str(t.as_slice(), "---") || contains_str(t.as_slice(), "+-") {
            k = k + 1;
            continue;
        }
        let cells = pipe_cells_of(t.as_slice());
        if cells.len() > 0 {
            let ghost before = crate::types::rows_view(rows@);
            let ghost cv = strs(cells@);
            rows.push(cells);
            assert(crate::types::rows_view(rows@) =~= before.push(cv));
        }
        k = k + 1;
    }
    (rows, k)
}

// ---------------------------------------------------------------------------
// Lists and paragraphs
// ---------------------------------------------------------------------------

/// The continuation lines of a list item from line `k` on: indented, non-empty
/// lines that start no list item or other structure, trimmed.
pub open spec fn cont_from(ls: Seq<Seq<char>>, k: nat, parts: Seq<Seq<char>>) -> (Seq<Seq<char>>, nat)
    decreases ls.len() - k,
{
    if k >= ls.len() {
        (parts, k)
    } else {
        let raw = ls[k as int];
        let nt = text::trim(raw);
        if nt.len() == 0 || list_item(nt) || structural_start(nt) {
            (parts, k)
        } else if text::starts_with(raw, " "@) || text::starts_with(raw, "\t"@) {
            cont_from(ls, k + 1, parts.push(nt))
        } else {
            (parts, k)
        }
    }
}

pub proof fn lemma_cont_from(ls: Seq<Seq<char>>, k: nat, parts: Seq<Seq<char>>)
    ensures
        k <= ls.len() ==> k <= cont_from(ls, k, parts).1 <= ls.len(),
    decreases ls.len() - k,
{
    if k < ls.len() {
        lemma_cont_from(ls, k + 1, parts.push(text::trim(ls[k as int])));
    }
}

/// The items of a list from line `j` on: each list-item line with its
/// continuation lines, joined with spaces, until an empty line or a line that is
/// no list item.
pub open spec fn list_from(ls: Seq<Seq<char>>, j: nat, items: Seq<Seq<char>>) -> (Seq<Seq<char>>, nat)
    decreases ls.len() - j,
{
    if j >= ls.len() {
        (items, j)
    } else {
        let t = text::trim(ls[j as int]);
        if t.len() == 0 || !list_item(t) {
            (items, j)
        } else {
            let (parts, k) = cont_from(ls, j + 1, seq![item_text(t)]);
            proof {
                lemma_cont_from(ls, j + 1, seq![item_text(t)]);
            }
            list_from(ls, k, items.push(join_spaces(parts)))
        }
    }
}

pub proof fn lemma_list_from(ls: Seq<Seq<char>>, j: nat, items: Seq<Seq<char>>)
    ensures
        j <= ls.len() ==> j <= list_from(ls, j, items).1 <= ls.len(),
        j < ls.len() && text::trim(ls[j as int]).len() > 0 && list_item(text::trim(ls[j as int])) ==> j
            < list_from(ls, j, items).1,
    decreases ls.len() - j,
{
    if j < ls.len() {
        let t = text::trim(ls[j as int]);
        if t.len() > 0 && list_item(t) {
            let (parts, k) = cont_from(ls, j + 1, seq![item_text(t)]);
            lemma_cont_from(ls, j + 1, seq![item_text(t)]);
            lemma_list_from(ls, k, items.push(join_spaces(parts)));
        }
    }
}

/// A line that is nothing but an image link.
pub open spec fn image_line(t: Seq<char>) -> bool {
    org_link(t, 0) matches Some((url, d, to)) && to == t.len() && image_url(url)
}

/// The continuation lines of a paragraph from line `k` on: non-empty lines that
/// start no structure and are no image link, trimmed.
pub open spec fn para_from(ls: Seq<Seq<char>>, k: nat, plines: Seq<Seq<char>>) -> (Seq<Seq<char>>, nat)
    decreases ls.len() - k,
{
    if k >= ls.len() {
        (plines, k)
    } else {
        let nt = text::trim(ls[k as int]);
        if nt.len() == 0 || structural_start(nt) || image_line(nt) {
            (plines, k)
        } else {
            para_from(ls, k + 1, plines.push(nt))
        }
    }
}

pub proof fn lemma_para_from(ls: Seq<Seq<char>>, k: nat, plines: Seq<Seq<char>>)
    ensures
        k <= ls.len() ==> k <= para_from(ls, k, plines).1 <= ls.len(),
    decreases ls.len() - k,
{
    if k < ls.len() {
        lemma_para_from(ls, k + 1, plines.push(text::trim(ls[k as int])));
    }
}

/// Whether a trimmed line is nothing but an image link.
fn is_image_line(t: &[char]) -> (r: bool)
    ensures
        r == image_line(t@),
{
    match OrgModeExtractor::parse_org_link(t, 0) {
        Some((url, _d, to)) => to == t.len() && OrgModeExtractor::is_image_url(url.as_str()),
        None => false,
    }
}

/// The continuation lines of a list item starting at line `k`.
fn scan_cont(ls: &Vec<Vec<char>>, k0: usize, parts0: Vec<Vec<char>>) -> (r: (Vec<Vec<char>>, usize))
    requires
        k0 <= ls@.len(),
    ensures
        (text::views(r.0@), r.1 as nat) == cont_from(text::views(ls@), k0 as nat, text::views(parts0@)),
        k0 <= r.1 <= ls@.len(),
{
    let ghost lv = text::views(ls@);
    let mut parts = parts0;
    let mut k = k0;
    while k < ls.len()
        invariant
            k0 <= k <= ls@.len(),
            lv == text::views(ls@),
            cont_from(lv, k0 as nat, text::views(parts0@)) == cont_from(lv, k as nat, text::views(parts@)),
        ensures
            k0 <= k <= ls@.len(),
            cont_from(lv, k0 as nat, text::views(parts0@)) == (text::views(parts@), k as nat),
        decreases ls@.len() - k,
    {
        assert(lv[k as int] == ls@[k as int]@);
        let raw = ls[k].as_slice();
        let nt = trim_vec(raw);
        let ns = chars_string(nt.as_slice());
        if nt.len() == 0 || OrgModeExtractor::is_org_list_item(ns.as_str()) || OrgModeExtractor::is_structural_start(
            ns.as_str(),
        ) {
            break;
        }
        if starts_with_str(raw, " ") || starts_with_str(raw, "\t") {
            let ghost before = text::views(parts@);
            let ghost nv = nt@;
            parts.push(nt);
            assert(text::views(parts@) =~= before.push(nv));
            k = k + 1;
        } else {
            break;
        }
    }
    (parts, k)
}

/// The items of a list starting at line `j`, and the first line after it.
pub fn scan_list(ls: &Vec<Vec<char>>, j: usize) -> (r: (Vec<Vec<char>>, usize))
    requires
        j <= ls@.len(),
    ensures
        (text::views(r.0@), r.1 as nat) == list_from(text::views(ls@), j as nat, seq![]),
        j <= r.1 <= ls@.len(),
{
    let ghost lv = text::views(ls@);
    let mut items: Vec<Vec<char>> = Vec::new();
    let mut k = j;
    assert(text::views(items@) =~= Seq::<Seq<char>>::empty());
    while k < ls.len()
        invariant
            j <= k <= ls@.len(),
            lv == text::views(ls@),
            list_from(lv, j as nat, seq![]) == list_from(lv, k as nat, text::views(items@)),
        ensures
            j <= k <= ls@.len(),
            list_from(lv, j as nat, seq![]) == (text::views(items@), k as nat),
        decreases ls@.len() - k,
    {
        assert(lv[k as int] == ls@[k as int]@);
        let t = trim_vec(ls[k].as_slice());
        let ts = chars_string(t.as_slice());
        if t.len() == 0 || !OrgModeExtractor::is_org_list_item(ts.as_str()) {
            break;
        }
        let first = OrgModeExtractor::strip_list_prefix(ts.as_str());
        let fv = str_chars(first.as_str());
        let mut start: Vec<Vec<char>> = Vec::new();
        start.push(fv);
        assert(text::views(start@) =~= seq![item_text(t@)]);
        let (parts, next) = scan_cont(ls, k + 1, start);
        let joined = join_with_spaces(&parts);
        let ghost before = text::views(items@);
        let ghost jv = joined@;
        items.push(joined);
        assert(text::views(items@) =~= before.push(jv));
        k = next;
    }
    (items, k)
}

/// The lines of a paragraph starting with `first`, continued from line `k`.
pub fn scan_para(ls: &Vec<Vec<char>>, k0: usize, first: Vec<char>) -> (r: (Vec<Vec<char>>, usize))
    requires
        k0 <= ls@.len(),
    ensures
        (text::views(r.0@), r.1 as nat) == para_from(text::views(ls@), k0 as nat, seq![first@]),
        k0 <= r.1 <= ls@.len(),
{
    let ghost lv = text::views(ls@);
    let mut plines: Vec<Vec<char>> = Vec::new();
    let ghost fv = first@;
    plines.push(first);
    assert(text::views(plines@) =~= seq![fv]);
    let mut k = k0;
    while k < ls.len()
        invariant
            k0 <= k <= ls@.len(),
            lv == text::views(ls@),
            para_from(lv, k0 as nat, seq![fv]) == para_from(lv, k as nat, text::views(plines@)),
        ensures
            k0 <= k <= ls@.len(),
            para_from(lv, k0 as nat, seq![fv]) == (text::views(plines@), k as nat),
        decreases ls@.len() - k,
    {
        assert(lv[k as int] == ls@[k as int]@);
        let nt = trim_vec(ls[k].as_slice());
        let ns = chars_string(nt.as_slice());
        if nt.len() == 0 || OrgModeExtractor::is_structural_start(ns.as_str()) || is_image_line(nt.as_slice()) {
            break;
        }
        let ghost before = text::views(plines@);
        let ghost nv = nt@;
        plines.push(nt);
        assert(text::views(plines@) =~= before.push(nv));
        k = k + 1;
    }
    (plines, k)
}

// ---------------------------------------------------------------------------
// Links
// ---------------------------------------------------------------------------

/// Where an org link whose text follows `[[` ends, counted from after `[[`:
/// after `]]` of the description when there is `][`, else after the first `]]`.
pub open spec fn link_close(after: Seq<char>) -> Option<nat> {
    match text::find(after, "]["@) {
        Some(ds) => match text::find(after.skip(ds + 2int), "]]"@) {
            Some(c) => Some(ds + 2 + c + 2),
            None => None,
        },
        None => match text::find(after, "]]"@) {
            Some(p) => Some(p + 2),
            None => None,
        },
    }
}

pub proof fn lemma_link_close(after: Seq<char>)
    ensures
        link_close(after) matches Some(c) ==> 2 <= c <= after.len(),
{
    reveal_strlit("][");
    reveal_strlit("]]");
    text::lemma_find_from(after, "]["@, 0);
    text::lemma_find_from(after, "]]"@, 0);
    if let Some(ds) = text::find(after, "]["@) {
        text::lemma_find_from(after.skip(ds + 2int), "]]"@, 0);
    }
}

/// The internal links (`[[#anchor]]`, `[[*heading]]`) of `line` from `from` on,
/// all from element `source`; the scan stops at a link that is never closed.
pub open spec fn internal_links(line: Seq<char>, from: nat, source: u32) -> Seq<RelView>
    decreases line.len() - from,
{
    if from > line.len() {
        seq![]
    } else {
        match text::find(line.skip(from as int), "[["@) {
            None => seq![],
            Some(pos) => {
                let abs = from + pos;
                let after = line.skip(abs + 2int);
                match link_close(after) {
                    None => seq![],
                    Some(consumed) => {
                        proof {
                            lemma_link_close(after);
                            reveal_strlit("[[");
                            text::lemma_find_from(line.skip(from as int), "[["@, 0);
                        }
                        let content = after.take(consumed - 2);
                        let url = match text::find(content, "]["@) {
                            Some(sep) => content.take(sep as int),
                            None => content,
                        };
                        let here = if text::starts_with(url, "#"@) || text::starts_with(url, "*"@) {
                            seq![RelView { source, target: TargetView::Key(url.skip(1)), kind: RelKind::InternalLink }]
                        } else {
                            seq![]
                        };
                        here + internal_links(line, abs + 2 + consumed, source)
                    },
                }
            },
        }
    }
}

/// The internal links of a paragraph's raw text, from element `source`.
pub fn extract_internal_links(line: &[char], source: u32) -> (r: Vec<Relationship>)
    ensures
        r@.map_values(|x: Relationship| x@) == internal_links(line@, 0, source),
{
    proof {
        reveal_strlit("[[");
        reveal_strlit("][");
        reveal_strlit("]]");
        reveal_strlit("#");
        reveal_strlit("*");
    }
    let n = line.len();
    let mut rels: Vec<Relationship> = Vec::new();
    let mut from: usize = 0;
    assert(rels@.map_values(|x: Relationship| x@) =~= Seq::<RelView>::empty());
    while from <= n
        invariant
            from <= n + 1,
            n == line@.len(),
            internal_links(line@, 0, source) == rels@.map_values(|x: Relationship| x@) + internal_links(
                line@,
                from as nat,
                source,
            ),
        ensures
            internal_links(line@, 0, source) == rels@.map_values(|x: Relationship| x@),
        decreases n + 1 - from,
    {
        proof {
            reveal_strlit("[[");
            reveal_strlit("][");
            reveal_strlit("]]");
            reveal_strlit("#");
            reveal_strlit("*");
        }
        let ghost r0 = rels@.map_values(|x: Relationship| x@);
        let tail = slice_vec(line, from, n);
        assert(tail@ =~= line@.skip(from as int));
        proof {
            text::lemma_find_from(tail@, "[["@, 0);
        }
        let pos = match find_str(tail.as_slice(), "[[") {
            None => {
                assert(r0 + Seq::<RelView>::empty() =~= r0);
                break;
            },
            Some(p) => p,
        };
        let abs = from + pos;
        let after = slice_vec(line, abs + 2, n);
        assert(after@ =~= line@.skip(abs + 2));
        proof {
            lemma_link_close(after@);
            text::lemma_find_from(after@, "]["@, 0);
            text::lemma_find_from(after@, "]]"@, 0);
        }
        let close: Option<usize> = match find_str(after.as_slice(), "][") {
            Some(ds) => {
                let rest = slice_vec(after.as_slice(), ds + 2, after.len());
                assert(rest@ =~= after@.skip(ds + 2));
                match find_str(rest.as_slice(), "]]") {
                    Some(c) => Some(ds + 2 + c + 2),
                    None => None,
                }
            },
            None => match find_str(after.as_slice(), "]]") {
                Some(p) => Some(p + 2),
                None => None,
            },
        };
        let consumed = match close {
            None => {
                assert(r0 + Seq::<RelView>::empty() =~= r0);
                break;
            },
            Some(c) => c,
        };
        let content = slice_vec(after.as_slice(), 0, consumed - 2);
        assert(content@ =~= after@.take(consumed - 2));
        proof {
            text::lemma_find_from(content@, "]["@, 0);
        }
        let url = match find_str(content.as_slice(), "][") {
            Some(sep) => slice_vec(content.as_slice(), 0, sep),
            None => content,
        };
        assert(url@ =~= match text::find(content@, "]["@) {
            Some(sep) => content@.take(sep as int),
            None => content@,
        });
        if starts_with_str(url.as_slice(), "#") || starts_with_str(url.as_slice(), "*") {
            let key = slice_vec(url.as_slice(), 1, url.len());
            assert(key@ =~= url@.skip(1));
            let rel = Relationship {
                source,
                target: RelTarget::Key(chars_string(key.as_slice())),
                kind: RelKind::InternalLink,
            };
            let ghost rv = rel@;
            rels.push(rel);
            assert(rels@.map_values(|x: Relationship| x@) =~= r0 + seq![rv]);
        } else {
            assert(r0 + Seq::<RelView>::empty() =~= r0);
        }
        from = abs + 2 + consumed;
    }
    rels
}

/// Link targets recognised as images by their suffix.
pub open spec fn image_suffix(url: Seq<char>) -> bool {
    text::ends_with(url, ".png"@) || text::ends_with(url, ".jpg"@) || text::ends_with(url, ".jpeg"@)
        || text::ends_with(url, ".gif"@) || text::ends_with(url, ".svg"@)
}

/// Labels that mark a `file:` link as an image.
pub open spec fn image_label(l: Seq<char>) -> bool {
    text::ends_with(l, ".png"@) || text::ends_with(l, ".jpg"@) || text::ends_with(l, ".jpeg"@)
}

/// The URI a link annotation of `stripped` records: its url, the annotated text
/// as label, and whether it is an image.
pub open spec fn link_uri(stripped: Seq<char>, a: AnnView) -> Option<UriView> {
    match a.kind {
        KindView::Link { url, title } => if url.len() > 0 {
            let label = byte_slice(stripped, a.start as nat, a.end as nat);
            let image = image_suffix(url) || (text::starts_with(url, "file:"@) && (label matches Some(l)
                && image_label(l)));
            Some(UriView {
                url,
                label,
                kind: if image {
                    UriKind::Image
                } else {
                    link_kind(url)
                },
            })
        } else {
            None
        },
        _ => None,
    }
}

/// The URIs of the link annotations among `anns`, in order.
pub open spec fn link_uris(stripped: Seq<char>, anns: Seq<AnnView>) -> Seq<UriView>
    decreases anns.len(),
{
    if anns.len() == 0 {
        seq![]
    } else {
        link_uris(stripped, anns.drop_last()) + match link_uri(stripped, anns.last()) {
            Some(u) => seq![u],
            None => seq![],
        }
    }
}

/// Whether `s` ends with `p`.
fn ends_str(s: &[char], p: &str) -> (r: bool)
    ensures
        r == text::ends_with(s@, p@),
{
    let pv = str_chars(p);
    text::ends_with_exec(s, pv.as_slice())
}

/// The URIs of the link annotations of a paragraph.
pub fn link_uris_exec(stripped: &[char], anns: &Vec<crate::types::TextAnnotation>) -> (r: Vec<UriRef>)
    ensures
        r@.map_values(|u: UriRef| u@) == link_uris(stripped@, crate::types::anns_view(anns@)),
{
    let ghost av = crate::types::anns_view(anns@);
    let mut out: Vec<UriRef> = Vec::new();
    let mut k: usize = 0;
    assert(av.take(0) =~= Seq::<AnnView>::empty());
    assert(out@.map_values(|u: UriRef| u@) =~= Seq::<UriView>::empty());
    while k < anns.len()
        invariant
            k <= anns@.len(),
            av == crate::types::anns_view(anns@),
            out@.map_values(|u: UriRef| u@) == link_uris(stripped@, av.take(k as int)),
        decreases anns@.len() - k,
    {
        assert(av.take(k + 1).drop_last() =~= av.take(k as int));
        assert(av.take(k + 1).last() == anns@[k as int]@);
        let ghost o0 = out@.map_values(|u: UriRef| u@);
        let a = &anns[k];
        match &a.kind {
            crate::types::AnnotationKind::Link { url, .. } => {
                if !url.as_str().is_empty() {
                    let label = match get_byte_range(stripped, a.start, a.end) {
                        Some(v) => Some(chars_string(v.as_slice())),
                        None => None,
                    };
                    let u = str_chars(url.as_str());
                    let us = u.as_slice();
                    let image = ends_str(us, ".png") || ends_str(us, ".jpg") || ends_str(us, ".jpeg") || ends_str(
                        us,
                        ".gif",
                    ) || ends_str(us, ".svg") || (starts_with_str(us, "file:") && match &label {
                        Some(l) => {
                            let lv = str_chars(l.as_str());
                            ends_str(lv.as_slice(), ".png") || ends_str(lv.as_slice(), ".jpg") || ends_str(
                                lv.as_slice(),
                                ".jpeg",
                            )
                        },
                        None => false,
                    });
                    let kind = if image {
                        UriKind::Image
                    } else {
                        link_kind_of(us)
                    };
                    let uri = UriRef { url: url.clone(), label, kind };
                    let ghost uv = uri@;
                    out.push(uri);
                    assert(out@.map_values(|u: UriRef| u@) =~= o0 + seq![uv]);
                } else {
                    assert(o0 + Seq::<UriView>::empty() =~= o0);
                }
            },
            _ => {
                assert(o0 + Seq::<UriView>::empty() =~= o0);
            },
        }
        k = k + 1;
    }
    assert(av.take(anns@.len() as int) =~= av);
    out
}

// ---------------------------------------------------------------------------
// Headings
// ---------------------------------------------------------------------------

/// The TODO keywords a heading may start with.
pub open spec fn todo_keywords() -> Seq<Seq<char>> {
    seq!["TODO"@, "DONE"@, "NEXT"@, "WAITING"@, "CANCELLED"@, "CANCELED"@]
}

/// A heading without its TODO keyword: the first keyword (from `k` on) that the
/// heading starts with and that is followed by a space or the end.
pub open spec fn strip_todo(h: Seq<char>, k: nat) -> Seq<char>
    decreases 6 - k,
{
    if k >= 6 {
        h
    } else {
        let kw = todo_keywords()[k as int];
        if text::starts_with(h, kw) && (h.skip(kw.len() as int).len() == 0 || text::starts_with(
            h.skip(kw.len() as int),
            " "@,
        )) {
            text::trim_start(h.skip(kw.len() as int))
        } else {
            strip_todo(h, k + 1)
        }
    }
}

/// The last position where `p` occurs in `s` before `i`.
pub open spec fn rfind_before(s: Seq<char>, p: Seq<char>, i: nat) -> Option<nat>
    decreases i,
{
    if i == 0 {
        None
    } else if text::matches_at(s, i - 1, p) {
        Some((i - 1) as nat)
    } else {
        rfind_before(s, p, (i - 1) as nat)
    }
}

/// A heading without its trailing tags (` :tag1:tag2:`).
pub open spec fn strip_tags(h: Seq<char>) -> Seq<char> {
    match rfind_before(h, " :"@, h.len()) {
        Some(ts) => {
            let tags = h.skip(ts + 1int);
            if text::ends_with(tags, ":"@) && text::utf8_len(tags) > 2 {
                text::trim_end(h.take(ts as int))
            } else {
                h
            }
        },
        None => h,
    }
}

/// The text of a heading: TODO keyword and tags removed.
pub open spec fn heading_text(raw: Seq<char>) -> Seq<char> {
    strip_tags(strip_todo(raw, 0))
}

fn strip_todo_exec(h: &[char]) -> (r: Vec<char>)
    ensures
        r@ == strip_todo(h@, 0),
{
    let kws: [&str; 6] = ["TODO", "DONE", "NEXT", "WAITING", "CANCELLED", "CANCELED"];
    let mut k: usize = 0;
    while k < 6
        invariant
            k <= 6,
            forall|j: int| 0 <= j < 6 ==> #[trigger] kws@[j]@ == todo_keywords()[j],
            strip_todo(h@, 0) == strip_todo(h@, k as nat),
        decreases 6 - k,
    {
        let kw = str_chars(kws[k]);
        if text::starts_with_exec(h, kw.as_slice()) {
            let after = slice_vec(h, kw.len(), h.len());
            assert(after@ =~= h@.skip(kw@.len() as int));
            if after.len() == 0 || starts_with_str(after.as_slice(), " ") {
                return text::trim_start_vec(after.as_slice());
            }
        }
        k = k + 1;
    }
    slice_vec(h, 0, h.len())
}

fn strip_tags_exec(h: &[char]) -> (r: Vec<char>)
    ensures
        r@ == strip_tags(h@),
{
    let pat = str_chars(" :");
    let mut i = h.len();
    while i > 0
        invariant
            i <= h@.len(),
            pat@ == " :"@,
            rfind_before(h@, " :"@, h@.len() as nat) == rfind_before(h@, " :"@, i as nat),
        decreases i,
    {
        if text::matches_at_exec(h, i - 1, pat.as_slice()) {
            let ts = i - 1;
            proof {
                reveal_strlit(" :");
            }
            let tags = slice_vec(h, ts + 1, h.len());
            assert(tags@ =~= h@.skip(ts + 1));
            let n = text::utf8_len_exec(tags.as_slice());
            if ends_str(tags.as_slice(), ":") && n > 2 {
                let head = slice_vec(h, 0, ts);
                return trim_end_vec(head.as_slice());
            }
            return slice_vec(h, 0, h.len());
        }
        i = i - 1;
    }
    slice_vec(h, 0, h.len())
}

/// `s` without trailing whitespace.
pub(crate) fn trim_end_vec(s: &[char]) -> (r: Vec<char>)
    ensures
        r@ == text::trim_end(s@),
{
    let mut e = s.len();
    proof {
        lemma_trim_end_take(s@, e as nat);
    }
    while e > 0 && text::is_whitespace(s[e - 1])
        invariant
            e <= s@.len(),
            text::trim_end(s@) == text::trim_end(s@.take(e as int)),
        decreases e,
    {
        proof {
            assert(s@.take(e as int).drop_last() =~= s@.take(e - 1));
        }
        e = e - 1;
    }
    slice_vec(s, 0, e)
}

proof fn lemma_trim_end_take(s: Seq<char>, e: nat)
    requires
        e == s.len(),
    ensures
        text::trim_end(s) == text::trim_end(s.take(e as int)),
{
    assert(s.take(e as int) =~= s);
}

// ---------------------------------------------------------------------------
// Elements
// ---------------------------------------------------------------------------

/// A block kept raw, in the `orgmode` format.
pub open spec fn raw_elem(t: Seq<char>) -> ElemView {
    ElemView { kind: ElementKind::RawBlock, text: t, anns: seq![], attrs: seq![("format"@, "orgmode"@)], cells: seq![], anchor: None }
}

/// `d` with a plain element of `kind` for each of `texts`.
pub open spec fn add_plains(d: DocView, kind: ElementKind, texts: Seq<Seq<char>>) -> DocView
    decreases texts.len(),
{
    if texts.len() == 0 {
        d
    } else {
        add_elem(add_plains(d, kind, texts.drop_last()), plain(kind, texts.last()))
    }
}

/// `d` with a footnote reference `[fn:r]` for each label `r` of `refs`.
pub open spec fn add_refs(d: DocView, refs: Seq<Seq<char>>) -> DocView
    decreases refs.len(),
{
    if refs.len() == 0 {
        d
    } else {
        add_elem(
            add_refs(d, refs.drop_last()),
            footnote_elem(ElementKind::FootnoteRef, "[fn:"@ + refs.last() + "]"@, refs.last()),
        )
    }
}

/// A paragraph from the joined raw text of its lines: the URIs of its links,
/// the paragraph with its markup stripped and annotated, its footnote
/// references, and its internal links.
pub open spec fn para_doc(d: DocView, joined: Seq<char>) -> DocView {
    let refs = footnotes_from(joined, 0);
    let (stripped, anns) = spec_inline(joined);
    let d1 = add_uris(d, link_uris(stripped, anns));
    let idx = index_u32(d1.elems.len());
    let d2 = add_elem(d1, ElemView {
        kind: ElementKind::Paragraph,
        text: stripped,
        anns,
        attrs: seq![],
        cells: seq![],
        anchor: None,
    });
    add_rels(add_refs(d2, refs), internal_links(joined, 0, idx))
}

/// The type of a `#+BEGIN_type` block.
pub open spec fn block_type(t: Seq<char>) -> Seq<char> {
    let w = first_word(t);
    if text::starts_with(w, "#+BEGIN_"@) || text::starts_with(w, "#+begin_"@) {
        w.skip(8)
    } else {
        "UNKNOWN"@
    }
}

/// A footnote definition line `[fn:name] text`: the definition when the name and
/// the text are not empty.
pub open spec fn footnote_def(d: DocView, t: Seq<char>) -> DocView {
    match text::find_char(t, ']') {
        Some(close) => if close >= 4 {
            let name = t.subrange(4, close as int);
            let def = text::trim(t.skip(close + 1int));
            if name.len() > 0 && def.len() > 0 {
                add_elem(d, footnote_elem(ElementKind::FootnoteDefinition, def, name))
            } else {
                d
            }
        } else {
            d
        },
        None => d,
    }
}

/// One step of the body at line `i`: what it adds and the line after it.
pub open spec fn org_step(ls: Seq<Seq<char>>, i: nat, d: DocView) -> (DocView, nat) {
    let t = text::trim(ls[i as int]);
    if text::starts_with(t, "#+"@) && !text::starts_with(t, "#+BEGIN"@) && !text::starts_with(t, "#+begin"@)
        && !text::starts_with(t, "#+END"@) && !text::starts_with(t, "#+end"@) {
        (d, i + 1)
    } else if t == ":PROPERTIES:"@ {
        let (props, j) = props_from(ls, i + 1, seq![]);
        (if props.len() > 0 {
            add_elem(d, meta_elem(props))
        } else {
            d
        }, j)
    } else if heading_line(t) {
        let n = heading_stars(t);
        let raw = text::trim(t.skip(n + 1int));
        (if raw.len() > 0 {
            add_elem(d, plain(ElementKind::Heading { level: n as u8 }, heading_text(raw)))
        } else {
            d
        }, i + 1)
    } else if text::starts_with(t, "#+BEGIN_SRC"@) || text::starts_with(t, "#+begin_src"@) {
        let (c, j) = block_from(ls, i + 1, "#+END_SRC"@, "#+end_src"@, seq![]);
        (add_elem(d, code_elem(text::trim_end(c), second_word(t))), j)
    } else if text::starts_with(t, "#+BEGIN_QUOTE"@) || text::starts_with(t, "#+begin_quote"@) {
        let (ps, j) = quote_from(ls, i + 1, seq![]);
        (add_elem(
            add_plains(add_elem(d, plain(ElementKind::QuoteStart, seq![])), ElementKind::Paragraph, ps),
            plain(ElementKind::QuoteEnd, seq![]),
        ), j)
    } else if text::starts_with(t, "#+BEGIN_EXAMPLE"@) || text::starts_with(t, "#+begin_example"@) {
        let (c, j) = block_from(ls, i + 1, "#+END_EXAMPLE"@, "#+end_example"@, seq![]);
        (add_elem(d, code_elem(text::trim_end(c), None)), j)
    } else if text::starts_with(t, "#+BEGIN_"@) || text::starts_with(t, "#+begin_"@) {
        let eu = "#+END_"@ + block_type(t);
        let (c, j) = block_from(ls, i + 1, eu, lowercase_text(eu), seq![]);
        (add_elem(d, raw_elem(text::trim_end(c))), j)
    } else if table_line(t) {
        let (rows, j) = table_from(ls, i, seq![]);
        (if rows.len() > 0 {
            add_elem(d, table_elem(rows))
        } else {
            d
        }, j)
    } else if t.len() > 0 && list_item(t) {
        let o = super::ordered_item(t);
        let (items, j) = list_from(ls, i, seq![]);
        (add_elem(
            add_plains(add_elem(d, plain(ElementKind::ListStart { ordered: o }, seq![])), ElementKind::ListItem { ordered: o }, items),
            plain(ElementKind::ListEnd, seq![]),
        ), j)
    } else if text::starts_with(t, "[fn:"@) {
        (footnote_def(d, t), i + 1)
    } else if t.len() > 0 {
        if image_line(t) {
            let (url, display, to) = org_link(t, 0)->0;
            let alt = if display == url {
                seq![]
            } else {
                display
            };
            let label = if display == url {
                None
            } else {
                Some(display)
            };
            (add_uri(add_elem(d, plain(ElementKind::Image { image_index: u32::MAX }, alt)), UriView { url, label, kind: UriKind::Image }), i + 1)
        } else {
            let (plines, next) = para_from(ls, i + 1, seq![t]);
            (para_doc(d, join_spaces(plines)), next)
        }
    } else {
        (d, i + 1)
    }
}

/// Each step moves past the line it starts at, and stays within the lines.
pub proof fn lemma_org_step(ls: Seq<Seq<char>>, i: nat, d: DocView)
    requires
        i < ls.len(),
    ensures
        i < org_step(ls, i, d).1 <= ls.len(),
{
    let t = text::trim(ls[i as int]);
    lemma_props_from(ls, i + 1, seq![]);
    lemma_block_from(ls, i + 1, "#+END_SRC"@, "#+end_src"@, seq![]);
    lemma_block_from(ls, i + 1, "#+END_EXAMPLE"@, "#+end_example"@, seq![]);
    let eu = "#+END_"@ + block_type(t);
    lemma_block_from(ls, i + 1, eu, lowercase_text(eu), seq![]);
    lemma_quote_from(ls, i + 1, seq![]);
    lemma_table_from(ls, i, seq![]);
    lemma_list_from(ls, i, seq![]);
    lemma_para_from(ls, i + 1, seq![t]);
}

pub proof fn lemma_props_from(ls: Seq<Seq<char>>, j: nat, p: Seq<(Seq<char>, Seq<char>)>)
    ensures
        j <= ls.len() ==> j <= props_from(ls, j, p).1 <= ls.len(),
    decreases ls.len() - j,
{
    if j < ls.len() {
        let pt = text::trim(ls[j as int]);
        let props2 = if pt.len() > 1 && pt[0] == ':' {
            match text::find_char(pt.skip(1), ':') {
                Some(c2) => {
                    let key = pt.subrange(1, 1 + c2 as int);
                    let value = text::trim(pt.skip(2 + c2 as int));
                    if key.len() > 0 {
                        p.push((key, value))
                    } else {
                        p
                    }
                },
                None => p,
            }
        } else {
            p
        };
        lemma_props_from(ls, j + 1, props2);
    }
}

pub proof fn lemma_block_from(ls: Seq<Seq<char>>, j: nat, eu: Seq<char>, el: Seq<char>, c: Seq<char>)
    ensures
        j <= ls.len() ==> j <= block_from(ls, j, eu, el, c).1 <= ls.len(),
    decreases ls.len() - j,
{
    if j < ls.len() {
        let sep = if c.len() > 0 {
            "\n"@
        } else {
            seq![]
        };
        lemma_block_from(ls, j + 1, eu, el, c + sep + ls[j as int]);
    }
}

pub proof fn lemma_quote_from(ls: Seq<Seq<char>>, j: nat, p: Seq<Seq<char>>)
    ensures
        j <= ls.len() ==> j <= quote_from(ls, j, p).1 <= ls.len(),
    decreases ls.len() - j,
{
    if j < ls.len() {
        let t = text::trim(ls[j as int]);
        lemma_quote_from(ls, j + 1, if t.len() > 0 {
            p.push(t)
        } else {
            p
        });
    }
}

pub proof fn lemma_table_from(ls: Seq<Seq<char>>, j: nat, rows: Seq<Seq<Seq<char>>>)
    ensures
        j <= ls.len() ==> j <= table_from(ls, j, rows).1 <= ls.len(),
        j < ls.len() && table_line(text::trim(ls[j as int])) ==> j < table_from(ls, j, rows).1,
    decreases ls.len() - j,
{
    if j < ls.len() {
        let t = text::trim(ls[j as int]);
        let cells = pipe_cells(text::split_char(t, '|'));
        lemma_table_from(ls, j + 1, rows);
        lemma_table_from(ls, j + 1, if cells.len() > 0 {
            rows.push(cells)
        } else {
            rows
        });
    }
}

/// The body from line `i` on, added to `d`.
pub open spec fn body_from(ls: Seq<Seq<char>>, i: nat, d: DocView) -> DocView
    decreases ls.len() - i,
{
    if i >= ls.len() {
        d
    } else {
        let (d2, j) = org_step(ls, i, d);
        proof {
            lemma_org_step(ls, i, d);
        }
        body_from(ls, j, d2)
    }
}

/// The document built from Org text: the preamble directives as a metadata block,
/// then the body.
pub open spec fn spec_org_document(content: Seq<char>) -> DocView {
    let ls = text::lines(content);
    let (entries, i) = preamble_from(ls, 0, seq![]);
    let d0 = if entries.len() > 0 {
        add_elem(empty_doc(), meta_elem(entries))
    } else {
        empty_doc()
    };
    body_from(ls, i, d0)
}

// ---------------------------------------------------------------------------
// Building
// ---------------------------------------------------------------------------

/// Adds a plain element of `kind` for each of `texts`.
fn push_plains(doc: &mut InternalDocument, kind: ElementKind, texts: &Vec<Vec<char>>)
    ensures
        final(doc).source_format == old(doc).source_format,
        final(doc)@ == add_plains(old(doc)@, kind, text::views(texts@)),
{
    let ghost tv = text::views(texts@);
    let ghost d0 = doc@;
    let mut k: usize = 0;
    assert(tv.take(0) =~= Seq::<Seq<char>>::empty());
    while k < texts.len()
        invariant
            k <= texts@.len(),
            tv == text::views(texts@),
            doc@ == add_plains(d0, kind, tv.take(k as int)),
            doc.source_format == old(doc).source_format,
        decreases texts@.len() - k,
    {
        assert(tv.take(k + 1).drop_last() =~= tv.take(k as int));
        assert(tv.take(k + 1).last() == texts@[k as int]@);
        doc.push_plain(kind, texts[k].as_slice());
        k = k + 1;
    }
    assert(tv.take(k as int) =~= tv);
}

/// Adds an element with one attribute.
fn push_with_attr(doc: &mut InternalDocument, kind: ElementKind, t: &[char], key: &str, value: &[char])
    ensures
        final(doc).source_format == old(doc).source_format,
        final(doc)@ == add_elem(
            old(doc)@,
            ElemView { kind, text: t@, anns: seq![], attrs: seq![(key@, value@)], cells: seq![], anchor: None },
        ),
{
    let mut attrs: Vec<(String, String)> = Vec::new();
    let a = (key.to_owned(), chars_string(value));
    let ghost av = (a.0@, a.1@);
    attrs.push(a);
    let e = InternalElement {
        kind,
        text: chars_string(t),
        annotations: Vec::new(),
        attributes: attrs,
        cells: Vec::new(),
        anchor: None,
    };
    assert(e@.anns =~= Seq::<AnnView>::empty());
    assert(e@.attrs =~= seq![av]);
    assert(e@.cells =~= Seq::<Seq<Seq<char>>>::empty());
    doc.push_element(e);
}

/// Adds a footnote reference `[fn:r]` for each label of `refs`.
fn push_refs(doc: &mut InternalDocument, refs: &Vec<String>)
    ensures
        final(doc).source_format == old(doc).source_format,
        final(doc)@ == add_refs(old(doc)@, strs(refs@)),
{
    let ghost rv = strs(refs@);
    let ghost d0 = doc@;
    let mut k: usize = 0;
    assert(rv.take(0) =~= Seq::<Seq<char>>::empty());
    while k < refs.len()
        invariant
            k <= refs@.len(),
            rv == strs(refs@),
            doc@ == add_refs(d0, rv.take(k as int)),
            doc.source_format == old(doc).source_format,
        decreases refs@.len() - k,
    {
        assert(rv.take(k + 1).drop_last() =~= rv.take(k as int));
        assert(rv.take(k + 1).last() == refs@[k as int]@);
        let label = str_chars(refs[k].as_str());
        let mut t: Vec<char> = Vec::new();
        push_str(&mut t, "[fn:");
        push_all(&mut t, label.as_slice());
        push_str(&mut t, "]");
        push_with_attr(doc, ElementKind::FootnoteRef, t.as_slice(), "label", label.as_slice());
        k = k + 1;
    }
    assert(rv.take(k as int) =~= rv);
}

/// Adds a paragraph from the joined raw text of its lines.
fn push_paragraph(doc: &mut InternalDocument, joined: &[char])
    ensures
        final(doc).source_format == old(doc).source_format,
        final(doc)@ == para_doc(old(doc)@, joined@),
{
    let js = chars_string(joined);
    let refs = OrgModeExtractor::find_footnote_references(js.as_str());
    let (stripped, anns) = OrgModeExtractor::parse_inline_chars(joined);
    let uris = link_uris_exec(stripped.as_slice(), &anns);
    doc.append_uris(uris);
    let n = doc.elements.len();
    let idx = ((n as u64) % 0x1_0000_0000) as u32;
    let e = InternalElement {
        kind: ElementKind::Paragraph,
        text: chars_string(stripped.as_slice()),
        annotations: anns,
        attributes: Vec::new(),
        cells: Vec::new(),
        anchor: None,
    };
    assert(e@.attrs =~= Seq::<(Seq<char>, Seq<char>)>::empty());
    assert(e@.cells =~= Seq::<Seq<Seq<char>>>::empty());
    doc.push_element(e);
    push_refs(doc, &refs);
    let rels = extract_internal_links(joined, idx);
    doc.append_relationships(rels);
}

/// One step of the body at line `i`; returns the line after it.
#[verifier::spinoff_prover]
#[verifier::rlimit(40)]
fn org_step_exec(ls: &Vec<Vec<char>>, i: usize, doc: &mut InternalDocument) -> (j: usize)
    requires
        i < ls@.len(),
    ensures
        final(doc).source_format == old(doc).source_format,
        (final(doc)@, j as nat) == org_step(text::views(ls@), i as nat, old(doc)@),
{
    let ghost lv = text::views(ls@);
    let n_lines = ls.len();
    assert(lv[i as int] == ls@[i as int]@);
    proof {
        lemma_org_step(lv, i as nat, doc@);
    }
    let t = trim_vec(ls[i].as_slice());
    let ts = t.as_slice();
    if starts_with_str(ts, "#+") && !starts_with_str(ts, "#+BEGIN") && !starts_with_str(ts, "#+begin")
        && !starts_with_str(ts, "#+END") && !starts_with_str(ts, "#+end") {
        return i + 1;
    }
    if text::slice_eq(ts, &[':', 'P', 'R', 'O', 'P', 'E', 'R', 'T', 'I', 'E', 'S', ':']) {
        assert(t@ == ":PROPERTIES:"@) by {
            reveal_strlit(":PROPERTIES:");
            assert(seq![':', 'P', 'R', 'O', 'P', 'E', 'R', 'T', 'I', 'E', 'S', ':'] =~= ":PROPERTIES:"@);
        }
        let (props, j) = scan_props(ls, i + 1);
        if props.len() > 0 {
            let e = InternalElement {
                kind: ElementKind::MetadataBlock,
                text: String::new(),
                annotations: Vec::new(),
                attributes: props,
                cells: Vec::new(),
                anchor: None,
            };
            assert(e@.anns =~= Seq::<AnnView>::empty());
            assert(e@.cells =~= Seq::<Seq<Seq<char>>>::empty());
            assert(e@.text =~= Seq::<char>::empty());
            doc.push_element(e);
        }
        return j;
    }
    proof {
        reveal_strlit(":PROPERTIES:");
        if t@ == ":PROPERTIES:"@ {
            assert(t@ =~= seq![':', 'P', 'R', 'O', 'P', 'E', 'R', 'T', 'I', 'E', 'S', ':']);
        }
    }
    let tstr = chars_string(ts);
    let none: Vec<char> = Vec::new();
    assert(none@ =~= Seq::<char>::empty());
    if super::is_heading_line(ts) {
        let n = super::count_stars(ts);
        let rest = slice_vec(ts, n + 1, t.len());
        assert(rest@ =~= t@.skip(n + 1));
        let raw = trim_vec(rest.as_slice());
        if raw.len() > 0 {
            let h1 = strip_todo_exec(raw.as_slice());
            let h = strip_tags_exec(h1.as_slice());
            doc.push_plain(ElementKind::Heading { level: n as u8 }, h.as_slice());
        }
        return i + 1;
    }
    if starts_with_str(ts, "#+BEGIN_SRC") || starts_with_str(ts, "#+begin_src") {
        let lang = second_word_exec(ts);
        let eu = str_chars("#+END_SRC");
        let el = str_chars("#+end_src");
        let (c, j) = scan_block(ls, i + 1, eu.as_slice(), el.as_slice());
        let body = trim_end_vec(c.as_slice());
        match lang {
            Some(l) => push_with_attr(doc, ElementKind::Code, body.as_slice(), "language", l.as_slice()),
            None => doc.push_plain(ElementKind::Code, body.as_slice()),
        }
        return j;
    }
    if starts_with_str(ts, "#+BEGIN_QUOTE") || starts_with_str(ts, "#+begin_quote") {
        doc.push_plain(ElementKind::QuoteStart, none.as_slice());
        let (ps, j) = scan_quote(ls, i + 1);
        push_plains(doc, ElementKind::Paragraph, &ps);
        doc.push_plain(ElementKind::QuoteEnd, none.as_slice());
        return j;
    }
    if starts_with_str(ts, "#+BEGIN_EXAMPLE") || starts_with_str(ts, "#+begin_example") {
        let eu = str_chars("#+END_EXAMPLE");
        let el = str_chars("#+end_example");
        let (c, j) = scan_block(ls, i + 1, eu.as_slice(), el.as_slice());
        let body = trim_end_vec(c.as_slice());
        doc.push_plain(ElementKind::Code, body.as_slice());
        return j;
    }
    if starts_with_str(ts, "#+BEGIN_") || starts_with_str(ts, "#+begin_") {
        proof {
            lemma_runs(t@, 0);
            reveal_strlit("#+BEGIN_");
            reveal_strlit("#+begin_");
        }
        let we = word_end_exec(ts, 0);
        let w = slice_vec(ts, 0, we);
        assert(w@ =~= first_word(t@));
        let btype = if starts_with_str(w.as_slice(), "#+BEGIN_") || starts_with_str(w.as_slice(), "#+begin_") {
            slice_vec(w.as_slice(), 8, w.len())
        } else {
            str_chars("UNKNOWN")
        };
        let mut eu = str_chars("#+END_");
        push_all(&mut eu, btype.as_slice());
        let eus = chars_string(eu.as_slice());
        let els = to_lowercase(eus.as_str());
        let el = str_chars(els.as_str());
        let (c, j) = scan_block(ls, i + 1, eu.as_slice(), el.as_slice());
        let body = trim_end_vec(c.as_slice());
        let fmt = str_chars("orgmode");
        push_with_attr(doc, ElementKind::RawBlock, body.as_slice(), "format", fmt.as_slice());
        return j;
    }
    if is_table_line(ts) {
        let (rows, j) = scan_table(ls, i);
        if rows.len() > 0 {
            let e = InternalElement {
                kind: ElementKind::Table,
                text: String::new(),
                annotations: Vec::new(),
                attributes: Vec::new(),
                cells: rows,
                anchor: None,
            };
            assert(e@.anns =~= Seq::<AnnView>::empty());
            assert(e@.attrs =~= Seq::<(Seq<char>, Seq<char>)>::empty());
            assert(e@.text =~= Seq::<char>::empty());
            doc.push_element(e);
        }
        return j;
    }
    if t.len() > 0 && OrgModeExtractor::is_org_list_item(tstr.as_str()) {
        let o = OrgModeExtractor::is_org_ordered_item(tstr.as_str());
        doc.push_plain(ElementKind::ListStart { ordered: o }, none.as_slice());
        let (items, j) = scan_list(ls, i);
        push_plains(doc, ElementKind::ListItem { ordered: o }, &items);
        doc.push_plain(ElementKind::ListEnd, none.as_slice());
        return j;
    }
    if starts_with_str(ts, "[fn:") {
        match find_char_exec(ts, ']') {
            Some(close) => {
                proof {
                    text::lemma_find_char_some(t@, ']');
                }
                if close >= 4 {
                    let name = slice_vec(ts, 4, close);
                    let dr = slice_vec(ts, close + 1, t.len());
                    assert(dr@ =~= t@.skip(close + 1));
                    let def = trim_vec(dr.as_slice());
                    if name.len() > 0 && def.len() > 0 {
                        push_with_attr(doc, ElementKind::FootnoteDefinition, def.as_slice(), "label", name.as_slice());
                    }
                }
            },
            None => {},
        }
        return i + 1;
    }
    if t.len() > 0 {
        if is_image_line(ts) {
            match OrgModeExtractor::parse_org_link(ts, 0) {
                Some((url, display, _to)) => {
                    let same = text::str_eq(display.as_str(), url.as_str());
                    let alt = if same {
                        Vec::new()
                    } else {
                        str_chars(display.as_str())
                    };
                    assert(same ==> alt@ =~= Seq::<char>::empty());
                    let label = if same {
                        None
                    } else {
                        Some(display)
                    };
                    doc.push_plain(ElementKind::Image { image_index: u32::MAX }, alt.as_slice());
                    doc.push_uri(UriRef { url, label, kind: UriKind::Image });
                },
                None => {},
            }
            return i + 1;
        }
        let (plines, next) = scan_para(ls, i + 1, t);
        let joined = join_with_spaces(&plines);
        push_paragraph(doc, joined.as_slice());
        return next;
    }
    i + 1
}

impl OrgModeExtractor {
    /// Builds the structured document of Org text: the preamble's `#+KEY: value`
    /// directives as a metadata block, then property drawers, headings (without
    /// TODO keywords and tags), source, quote, example and other blocks, tables,
    /// lists, footnote definitions, standalone image links and paragraphs (lines
    /// joined, inline markup stripped, with their URIs, footnote references and
    /// internal links).
    pub fn build_internal_document(org_text: &str) -> (r: InternalDocument)
        ensures
            r@ == spec_org_document(org_text@),
            r.source_format@ == "orgmode"@,
    {
        let c = str_chars(org_text);
        let ls = text::lines_exec(c.as_slice());
        let ghost lv = text::views(ls@);
        let mut doc = InternalDocument::new("orgmode");
        let (entries, start) = scan_preamble(&ls);
        if entries.len() > 0 {
            let e = InternalElement {
                kind: ElementKind::MetadataBlock,
                text: String::new(),
                annotations: Vec::new(),
                attributes: entries,
                cells: Vec::new(),
                anchor: None,
            };
            assert(e@.anns =~= Seq::<AnnView>::empty());
            assert(e@.cells =~= Seq::<Seq<Seq<char>>>::empty());
            assert(e@.text =~= Seq::<char>::empty());
            doc.push_element(e);
        }
        let mut i = start;
        proof {
            lemma_preamble_from(lv, 0, seq![]);
        }
        while i < ls.len()
            invariant
                i <= ls@.len(),
                lv == text::views(ls@),
                lv == text::lines(org_text@),
                doc.source_format@ == "orgmode"@,
                spec_org_document(org_text@) == body_from(lv, i as nat, doc@),
            decreases ls@.len() - i,
        {
            proof {
                lemma_org_step(lv, i as nat, doc@);
            }
            i = org_step_exec(&ls, i, &mut doc);
        }
        doc
    }
}

pub proof fn lemma_preamble_from(ls: Seq<Seq<char>>, i: nat, e: Seq<(Seq<char>, Seq<char>)>)
    ensures
        i <= ls.len() ==> i <= preamble_from(ls, i, e).1 <= ls.len(),
    decreases ls.len() - i,
{
    if i < ls.len() {
        let t = text::trim(ls[i as int]);
        let rest = t.skip(2);
        match text::find_char(rest, ':') {
            Some(c) => {
                let key = uppercase_text(text::trim(rest.take(c as int)));
                let value = text::trim(rest.skip(c + 1int));
                lemma_preamble_from(ls, i + 1, if value.len() > 0 {
                    e.push((key, value))
                } else {
                    e
                });
            },
            None => {},
        }
        lemma_preamble_from(ls, i + 1, e);
    }
}


// ---------------------------------------------------------------------------
// Heading levels
// ---------------------------------------------------------------------------

/// `t` is `n` stars, a space, and a title that is not blank.
pub open spec fn star_heading(t: Seq<char>, n: nat) -> bool {
    &&& 0 < n < 256
    &&& n < t.len()
    &&& forall|k: int| 0 <= k < n ==> #[trigger] t[k] == '*'
    &&& t[n as int] == ' '
    &&& text::trim(t.skip(n + 1int)).len() > 0
}

/// Leading stars are counted up to the first character that is not one.
proof fn lemma_count_stars(t: Seq<char>, n: nat)
    requires
        n < t.len(),
        forall|k: int| 0 <= k < n ==> #[trigger] t[k] == '*',
        t[n as int] != '*',
    ensures
        heading_stars(t) == n,
    decreases n,
{
    if n > 0 {
        let u = t.drop_first();
        assert forall|k: int| 0 <= k < n - 1 implies #[trigger] u[k] == '*' by {
            assert(u[k] == t[k + 1]);
        }
        assert(u[n - 1] == t[n as int]);
        lemma_count_stars(u, (n - 1) as nat);
    } else {
        assert(t[0] != '*');
    }
}

/// A line of `n` stars, a space and a title adds one element, a heading of
/// level `n`, after what was there, and the next step starts at the next line.
pub proof fn lemma_org_heading_step(ls: Seq<Seq<char>>, i: nat, d: DocView, n: nat)
    requires
        i < ls.len(),
        star_heading(text::trim(ls[i as int]), n),
    ensures
        org_step(ls, i, d).1 == i + 1,
        org_step(ls, i, d).0.elems.len() == d.elems.len() + 1,
        org_step(ls, i, d).0.elems.take(d.elems.len() as int) == d.elems,
        org_step(ls, i, d).0.elems.last().kind == (ElementKind::Heading { level: n as u8 }),
{
    let t = text::trim(ls[i as int]);
    assert(t[0] == '*');
    lemma_count_stars(t, n);
    reveal_strlit("#+");
    reveal_strlit(":PROPERTIES:");
    assert(!text::starts_with(t, "#+"@)) by {
        if text::starts_with(t, "#+"@) {
            assert(t.subrange(0, 2)[0] == '#');
        }
    }
    assert(t != ":PROPERTIES:"@) by {
        if t == ":PROPERTIES:"@ {
            assert(t[0] == ':');
        }
    }
    assert(heading_line(t));
    let e = plain(ElementKind::Heading { level: n as u8 }, heading_text(text::trim(t.skip(n + 1int))));
    assert(org_step(ls, i, d).0 == add_elem(d, e));
    assert(add_elem(d, e).elems.take(d.elems.len() as int) =~= d.elems);
}

/// The body from line `i` on, every line being a heading: one heading per line,
/// of the level its stars give, after the elements of `d`.
proof fn lemma_body_headings(ls: Seq<Seq<char>>, levels: Seq<nat>, i: nat, d: DocView)
    requires
        i <= ls.len(),
        levels.len() == ls.len(),
        forall|j: int| 0 <= j < ls.len() ==> star_heading(text::trim(#[trigger] ls[j]), levels[j]),
    ensures
        body_from(ls, i, d).elems.len() == d.elems.len() + (ls.len() - i),
        forall|k: int| 0 <= k < d.elems.len() ==> body_from(ls, i, d).elems[k] == d.elems[k],
        forall|j: int|
            i <= j < ls.len() ==> (#[trigger] body_from(ls, i, d).elems[d.elems.len() + j - i]).kind == (ElementKind::Heading {
                level: levels[j] as u8,
            }),
    decreases ls.len() - i,
{
    if i < ls.len() {
        assert(star_heading(text::trim(ls[i as int]), levels[i as int]));
        lemma_org_heading_step(ls, i, d, levels[i as int]);
        let (d2, j) = org_step(ls, i, d);
        lemma_body_headings(ls, levels, i + 1, d2);
        assert(body_from(ls, i, d) == body_from(ls, i + 1, d2));
        let b = body_from(ls, i, d);
        assert forall|k: int| 0 <= k < d.elems.len() implies b.elems[k] == d.elems[k] by {
            assert(d2.elems.take(d.elems.len() as int)[k] == d2.elems[k]);
        }
        assert(b.elems[d.elems.len() as int] == d2.elems[d.elems.len() as int]);
        assert(d2.elems[d.elems.len() as int] == d2.elems.last());
        assert forall|jj: int| i <= jj < ls.len() implies (#[trigger] b.elems[d.elems.len() + jj - i]).kind
            == (ElementKind::Heading { level: levels[jj] as u8 }) by {
            if jj > i {
                assert(b.elems[d.elems.len() + jj - i] == body_from(ls, i + 1, d2).elems[d2.elems.len() + jj - (i + 1)]);
            }
        }
    }
}

/// Org text whose every line is a heading (stars, a space, a title) gives one
/// heading element per line, in order, each of the level its star count gives.
pub proof fn lemma_org_heading_levels(content: Seq<char>, levels: Seq<nat>)
    requires
        levels.len() == text::lines(content).len(),
        forall|j: int|
            0 <= j < levels.len() ==> star_heading(text::trim(#[trigger] text::lines(content)[j]), levels[j]),
    ensures
        spec_org_document(content).elems.len() == levels.len(),
        forall|j: int|
            0 <= j < levels.len() ==> (#[trigger] spec_org_document(content).elems[j]).kind == (ElementKind::Heading {
                level: levels[j] as u8,
            }),
{
    let ls = text::lines(content);
    if ls.len() > 0 {
        let t = text::trim(ls[0]);
        assert(star_heading(t, levels[0]));
        reveal_strlit("#+");
        assert(!text::starts_with(t, "#+"@)) by {
            if text::starts_with(t, "#+"@) {
                assert(t.subrange(0, 2)[0] == '#');
                assert(t[0] == '*');
            }
        }
        assert(preamble_from(ls, 0, seq![]) == (Seq::<(Seq<char>, Seq<char>)>::empty(), 0nat));
    }
    assert(preamble_from(ls, 0, seq![]).0.len() == 0);
    assert(preamble_from(ls, 0, seq![]).1 == 0);
    lemma_body_headings(ls, levels, 0, empty_doc());
    assert forall|j: int| 0 <= j < levels.len() implies (#[trigger] spec_org_document(content).elems[j]).kind
        == (ElementKind::Heading { level: levels[j] as u8 }) by {
        assert(body_from(ls, 0, empty_doc()).elems[empty_doc().elems.len() + j - 0] == spec_org_document(content).elems[j]);
    }
}
} // verus!
