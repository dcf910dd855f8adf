//! An Org document as a tree of headings, each with its content lines and its
//! subtrees: its text, its tables, and the metadata of its directives.

use vstd::prelude::*;
use crate::text;
use crate::text::{
    lines_exec, slice_vec, chars_string, ends_with_exec, join_spaces, join_with_spaces, push_all, push_str, split_char_exec,
    starts_with_str, str_chars, trim_vec,
};
use crate::types::{opt_str, Metadata, MetadataView, Table, TableView, assoc_insert, empty_metadata, opt_strs, pairs_view, rows_view, strs, tables_view};
use crate::markdown_table::table_md;
use crate::latex::helpers::nonempty_trimmed;
use super::{OrgModeExtractor, spec_inline};
use super::builder::{lowercase_text, to_lowercase, spec_org_document};
use crate::document::{DocView, InternalDocument};
use crate::plugins::KreuzbergError;
use crate::fictionbook::{from_utf8_lossy, utf8_lossy};

verus! {

/// A heading of an Org document (the document itself has an empty one), the
/// content lines under it, and its subtrees.
#[derive(Debug)]
pub struct OrgTree {
    pub heading: String,
    pub content: Vec<String>,
    pub subtrees: Vec<OrgTree>,
}

// ---------------------------------------------------------------------------
// Text
// ---------------------------------------------------------------------------

/// A heading as a `# ` line, its markup stripped; nothing for an empty one.
pub open spec fn heading_text(h: Seq<char>) -> Seq<char> {
    if h.len() == 0 {
        seq![]
    } else {
        "# "@ + spec_inline(h).0 + "\n"@
    }
}

/// A paragraph from its trimmed lines joined with spaces, markup stripped, on a
/// line of its own.
pub open spec fn paragraph_line(p: Seq<Seq<char>>) -> Seq<char> {
    spec_inline(join_spaces(p)).0 + "\n"@
}

/// The paragraphs of `lines` so far, and the lines of the open paragraph: blank
/// lines end paragraphs.
pub open spec fn para_fold(lines: Seq<Seq<char>>) -> (Seq<char>, Seq<Seq<char>>)
    decreases lines.len(),
{
    if lines.len() == 0 {
        (seq![], seq![])
    } else {
        let (o, p) = para_fold(lines.drop_last());
        let t = text::trim(lines.last());
        if t.len() == 0 {
            if p.len() > 0 {
                (o + paragraph_line(p), seq![])
            } else {
                (o, p)
            }
        } else {
            (o, p.push(t))
        }
    }
}

/// Content lines as paragraphs, then a blank line; nothing without lines.
pub open spec fn content_text(lines: Seq<Seq<char>>) -> Seq<char> {
    if lines.len() == 0 {
        seq![]
    } else {
        let (o, p) = para_fold(lines);
        o + (if p.len() > 0 {
            paragraph_line(p)
        } else {
            seq![]
        }) + "\n"@
    }
}

/// The text of a tree: its heading, its content, then its subtrees in order.
pub open spec fn tree_text(t: OrgTree) -> Seq<char>
    decreases t, 1nat,
{
    heading_text(t.heading@) + content_text(strs(t.content@)) + subtrees_text(t.subtrees@)
}

/// The texts of trees one after the other.
pub open spec fn subtrees_text(ts: Seq<OrgTree>) -> Seq<char>
    decreases ts, 0nat,
{
    if ts.len() == 0 {
        seq![]
    } else {
        subtrees_text(ts.drop_last()) + tree_text(ts.last())
    }
}

// ---------------------------------------------------------------------------
// Tables
// ---------------------------------------------------------------------------

/// A table line: it starts and ends with `|`.
pub open spec fn table_line(t: Seq<char>) -> bool {
    text::starts_with(t, "|"@) && text::ends_with(t, "|"@)
}

/// A table of `rows` on page one.
pub open spec fn table_of(rows: Seq<Seq<Seq<char>>>) -> TableView {
    TableView { cells: rows, markdown: table_md(rows), page_number: 1 }
}

/// The tables finished so far, the rows of the open one, and whether a table
/// line was the last line: a line that is not a table line ends a table.
pub open spec fn table_fold(lines: Seq<Seq<char>>) -> (Seq<TableView>, Seq<Seq<Seq<char>>>, bool)
    decreases lines.len(),
{
    if lines.len() == 0 {
        (seq![], seq![], false)
    } else {
        let (ts, cur, in_table) = table_fold(lines.drop_last());
        let t = text::trim(lines.last());
        if table_line(t) {
            let cells = nonempty_trimmed(text::split_char(t, '|'));
            (ts, if cells.len() > 0 {
                cur.push(cells)
            } else {
                cur
            }, true)
        } else if in_table {
            (if cur.len() > 0 {
                ts.push(table_of(cur))
            } else {
                ts
            }, seq![], false)
        } else {
            (ts, cur, in_table)
        }
    }
}

/// The tables of content lines: runs of table lines with rows.
pub open spec fn content_tables(lines: Seq<Seq<char>>) -> Seq<TableView> {
    let (ts, cur, _) = table_fold(lines);
    if cur.len() > 0 {
        ts.push(table_of(cur))
    } else {
        ts
    }
}

/// The tables of a tree: those of its content, then those of its subtrees.
pub open spec fn tree_tables(t: OrgTree) -> Seq<TableView>
    decreases t, 1nat,
{
    content_tables(strs(t.content@)) + subtrees_tables(t.subtrees@)
}

/// The tables of trees one after the other.
pub open spec fn subtrees_tables(ts: Seq<OrgTree>) -> Seq<TableView>
    decreases ts, 0nat,
{
    if ts.len() == 0 {
        seq![]
    } else {
        subtrees_tables(ts.drop_last()) + tree_tables(ts.last())
    }
}

// ---------------------------------------------------------------------------
// Directives
// ---------------------------------------------------------------------------

/// What the directives of the first lines record: title, author, date and
/// keywords as they last appear, and the other `#+key: value` directives (key in
/// lower case, both non-empty) by key.
pub struct Directives {
    pub title: Option<Seq<char>>,
    pub author: Option<Seq<char>>,
    pub date: Option<Seq<char>>,
    pub keywords: Option<Seq<Seq<char>>>,
    pub others: Seq<(Seq<char>, Seq<char>)>,
}

/// No directive read.
pub open spec fn no_directives() -> Directives {
    Directives { title: None, author: None, date: None, keywords: None, others: seq![] }
}

/// What a trimmed line adds.
pub open spec fn directive_step(d: Directives, t: Seq<char>) -> Directives {
    if text::starts_with(t, "#+TITLE:"@) {
        Directives { title: Some(text::trim(t.skip(8))), ..d }
    } else if text::starts_with(t, "#+AUTHOR:"@) {
        Directives { author: Some(text::trim(t.skip(9))), ..d }
    } else if text::starts_with(t, "#+DATE:"@) {
        let v = text::trim(t.skip(7));
        Directives { date: Some(v), others: assoc_insert(d.others, "date"@, v), ..d }
    } else if text::starts_with(t, "#+KEYWORDS:"@) {
        Directives {
            keywords: Some(text::split_char(text::trim(t.skip(11)), ',').map_values(|k: Seq<char>| text::trim(k))),
            ..d
        }
    } else if text::starts_with(t, "#+"@) {
        let rest = t.skip(2);
        match text::find_char(rest, ':') {
            Some(c) => {
                let key = lowercase_text(text::trim(rest.take(c as int)));
                let value = text::trim(rest.skip(c + 1int));
                if key.len() > 0 && value.len() > 0 {
                    Directives { others: assoc_insert(d.others, "directive_"@ + key, value), ..d }
                } else {
                    d
                }
            },
            None => d,
        }
    } else {
        d
    }
}

/// The directives of the trimmed `lines`, in order.
pub open spec fn directives(lines: Seq<Seq<char>>) -> Directives
    decreases lines.len(),
{
    if lines.len() == 0 {
        no_directives()
    } else {
        directive_step(directives(lines.drop_last()), text::trim(lines.last()))
    }
}

/// The metadata of an Org text: the directives of its first hundred lines.
pub open spec fn spec_org_metadata(org_text: Seq<char>) -> MetadataView {
    let ls = text::lines(org_text);
    let d = directives(if ls.len() <= 100 {
        ls
    } else {
        ls.take(100)
    });
    MetadataView {
        title: d.title,
        created_at: d.date,
        authors: match d.author {
            Some(a) => Some(seq![a]),
            None => None,
        },
        keywords: d.keywords,
        additional: d.others,
        ..empty_metadata()
    }
}

impl OrgModeExtractor {
    /// Appends the text of a tree.
    pub fn extract_org_tree(org: &OrgTree, content: &mut Vec<char>)
        ensures
            final(content)@ == old(content)@ + tree_text(*org),
        decreases org,
    {
        let ghost c0 = content@;
        if !org.heading.as_str().is_empty() {
            let (stripped, _anns) = OrgModeExtractor::parse_inline_markup(org.heading.as_str());
            push_str(content, "# ");
            push_str(content, stripped.as_str());
            push_str(content, "\n");
        } else {
            proof {
                reveal_strlit("");
            }
        }
        assert(content@ =~= c0 + heading_text(org.heading@));
        let ghost c1 = content@;
        push_content_text(&org.content, content);
        push_subtrees_text(&org.subtrees, content);
        assert(content@ =~= c0 + tree_text(*org));
    }

    /// The text of an Org tree, trimmed: headings as `# ` lines and paragraphs
    /// with their markup stripped, on lines of their own.
    pub fn extract_content(org: &OrgTree) -> (r: String)
        ensures
            r@ == text::trim(tree_text(*org)),
    {
        let mut content: Vec<char> = Vec::new();
        OrgModeExtractor::extract_org_tree(org, &mut content);
        assert(content@ =~= tree_text(*org));
        let t = trim_vec(content.as_slice());
        chars_string(t.as_slice())
    }

    /// Appends the tables of a tree.
    pub fn extract_tables_from_tree(org: &OrgTree, tables: &mut Vec<Table>)
        ensures
            tables_view(final(tables)@) == tables_view(old(tables)@) + tree_tables(*org),
        decreases org,
    {
        let ghost t0 = tables_view(tables@);
        push_content_tables(&org.content, tables);
        push_subtrees_tables(&org.subtrees, tables);
        assert(tables_view(tables@) =~= t0 + tree_tables(*org));
    }

    /// The tables of an Org tree.
    pub fn extract_tables(org: &OrgTree) -> (r: Vec<Table>)
        ensures
            tables_view(r@) == tree_tables(*org),
    {
        let mut tables: Vec<Table> = Vec::new();
        assert(tables_view(tables@) =~= Seq::<TableView>::empty());
        OrgModeExtractor::extract_tables_from_tree(org, &mut tables);
        assert(tables_view(tables@) =~= tree_tables(*org));
        tables
    }
}

/// Appends the texts of trees.
fn push_subtrees_text(subs: &Vec<OrgTree>, content: &mut Vec<char>)
    ensures
        final(content)@ == old(content)@ + subtrees_text(subs@),
    decreases subs,
{
    let ghost c2 = content@;
    let mut k: usize = 0;
    assert(subs@.take(0) =~= Seq::<OrgTree>::empty());
    assert(c2 + subtrees_text(subs@.take(0)) =~= c2);
    while k < subs.len()
        invariant
            k <= subs@.len(),
            content@ == c2 + subtrees_text(subs@.take(k as int)),
        decreases subs@.len() - k,
    {
        assert(subs@.take(k + 1).drop_last() =~= subs@.take(k as int));
        assert(subs@.take(k + 1).last() == subs@[k as int]);
        OrgModeExtractor::extract_org_tree(&subs[k], content);
        assert(content@ =~= c2 + subtrees_text(subs@.take(k + 1)));
        k = k + 1;
    }
    assert(subs@.take(subs@.len() as int) =~= subs@);
}

/// Appends the tables of trees.
fn push_subtrees_tables(subs: &Vec<OrgTree>, tables: &mut Vec<Table>)
    ensures
        tables_view(final(tables)@) == tables_view(old(tables)@) + subtrees_tables(subs@),
    decreases subs,
{
    let ghost t1 = tables_view(tables@);
    let mut k: usize = 0;
    assert(subs@.take(0) =~= Seq::<OrgTree>::empty());
    assert(t1 + subtrees_tables(subs@.take(0)) =~= t1);
    while k < subs.len()
        invariant
            k <= subs@.len(),
            tables_view(tables@) == t1 + subtrees_tables(subs@.take(k as int)),
        decreases subs@.len() - k,
    {
        assert(subs@.take(k + 1).drop_last() =~= subs@.take(k as int));
        assert(subs@.take(k + 1).last() == subs@[k as int]);
        OrgModeExtractor::extract_tables_from_tree(&subs[k], tables);
        assert(tables_view(tables@) =~= t1 + subtrees_tables(subs@.take(k + 1)));
        k = k + 1;
    }
    assert(subs@.take(subs@.len() as int) =~= subs@);
}

/// Appends content lines as paragraphs and a blank line.
fn push_content_text(lines: &Vec<String>, content: &mut Vec<char>)
    ensures
        final(content)@ == old(content)@ + content_text(strs(lines@)),
{
    let ghost lv = strs(lines@);
    let ghost c0 = content@;
    if lines.len() == 0 {
        assert(content@ =~= c0 + content_text(lv));
        return;
    }
    let mut para: Vec<Vec<char>> = Vec::new();
    let mut k: usize = 0;
    assert(lv.take(0) =~= Seq::<Seq<char>>::empty());
    while k < lines.len()
        invariant
            k <= lines@.len(),
            lv == strs(lines@),
            para_fold(lv.take(k as int)) == (content@.skip(c0.len() as int), text::views(para@)),
            content@.len() >= c0.len(),
            content@.take(c0.len() as int) == c0,
        decreases lines@.len() - k,
    {
        assert(lv.take(k + 1).drop_last() =~= lv.take(k as int));
        assert(lv.take(k + 1).last() == lines@[k as int]@);
        let ghost before = content@;
        let ghost pv = text::views(para@);
        let lc = str_chars(lines[k].as_str());
        let t = trim_vec(lc.as_slice());
        if t.len() == 0 {
            if para.len() > 0 {
                let joined = join_with_spaces(&para);
                let (stripped, _anns) = OrgModeExtractor::parse_inline_chars(joined.as_slice());
                push_all(content, stripped.as_slice());
                push_str(content, "\n");
                para = Vec::new();
                assert(text::views(para@) =~= Seq::<Seq<char>>::empty());
                assert(content@.skip(c0.len() as int) =~= before.skip(c0.len() as int) + paragraph_line(pv));
            }
        } else {
            let ghost tv = t@;
            para.push(t);
            assert(text::views(para@) =~= pv.push(tv));
        }
        assert(content@.take(c0.len() as int) =~= c0);
        k = k + 1;
    }
    assert(lv.take(lines@.len() as int) =~= lv);
    let ghost pv = text::views(para@);
    let ghost mid = content@;
    if para.len() > 0 {
        let joined = join_with_spaces(&para);
        let (stripped, _anns) = OrgModeExtractor::parse_inline_chars(joined.as_slice());
        push_all(content, stripped.as_slice());
        push_str(content, "\n");
    }
    assert(content@ =~= mid + (if pv.len() > 0 {
        paragraph_line(pv)
    } else {
        seq![]
    }));
    push_str(content, "\n");
    assert(mid =~= c0 + mid.skip(c0.len() as int));
    assert(content@ =~= c0 + content_text(lv));
}

/// Appends the tables of content lines.
fn push_content_tables(lines: &Vec<String>, tables: &mut Vec<Table>)
    ensures
        tables_view(final(tables)@) == tables_view(old(tables)@) + content_tables(strs(lines@)),
{
    let ghost lv = strs(lines@);
    let ghost t0 = tables_view(tables@);
    let mut cur: Vec<Vec<String>> = Vec::new();
    let mut in_table = false;
    let mut k: usize = 0;
    assert(lv.take(0) =~= Seq::<Seq<char>>::empty());
    assert(rows_view(cur@) =~= Seq::<Seq<Seq<char>>>::empty());
    assert(t0 + Seq::<TableView>::empty() =~= t0);
    while k < lines.len()
        invariant
            k <= lines@.len(),
            lv == strs(lines@),
            ({
                let (ts, c, i) = table_fold(lv.take(k as int));
                tables_view(tables@) == t0 + ts && rows_view(cur@) == c && in_table == i
            }),
        decreases lines@.len() - k,
    {
        assert(lv.take(k + 1).drop_last() =~= lv.take(k as int));
        assert(lv.take(k + 1).last() == lines@[k as int]@);
        let lc = str_chars(lines[k].as_str());
        let t = trim_vec(lc.as_slice());
        let bar = str_chars("|");
        if starts_with_str(t.as_slice(), "|") && ends_with_exec(t.as_slice(), bar.as_slice()) {
            in_table = true;
            let parts = split_char_exec(t.as_slice(), '|');
            let cells = nonempty_trimmed_exec(&parts);
            if cells.len() > 0 {
                let ghost before = rows_view(cur@);
                let ghost cv = strs(cells@);
                cur.push(cells);
                assert(rows_view(cur@) =~= before.push(cv));
            }
        } else if in_table {
            if cur.len() > 0 {
                let ghost before = tables_view(tables@);
                let tb = make_table(cur);
                let ghost tv = tb@;
                tables.push(tb);
                assert(tables_view(tables@) =~= before.push(tv));
                cur = Vec::new();
            } else {
                cur = Vec::new();
            }
            assert(rows_view(cur@) =~= Seq::<Seq<Seq<char>>>::empty());
            in_table = false;
        }
        k = k + 1;
    }
    assert(lv.take(lines@.len() as int) =~= lv);
    if cur.len() > 0 {
        let ghost before = tables_view(tables@);
        let tb = make_table(cur);
        let ghost tv = tb@;
        tables.push(tb);
        assert(tables_view(tables@) =~= before.push(tv));
    }
}

/// A table of `rows` on page one.
fn make_table(rows: Vec<Vec<String>>) -> (r: Table)
    ensures
        r@ == table_of(rows_view(rows@)),
{
    let markdown = OrgModeExtractor::cells_to_markdown(rows.as_slice());
    Table { cells: rows, markdown, page_number: 1 }
}

/// The trimmed non-empty parts.
fn nonempty_trimmed_exec(parts: &Vec<Vec<char>>) -> (r: Vec<String>)
    ensures
        strs(r@) == nonempty_trimmed(text::views(parts@)),
{
    let ghost ps = text::views(parts@);
    let mut cells: Vec<String> = Vec::new();
    let mut j: usize = 0;
    assert(ps.take(0) =~= Seq::<Seq<char>>::empty());
    assert(strs(cells@) =~= Seq::<Seq<char>>::empty());
    while j < parts.len()
        invariant
            j <= parts@.len(),
            ps == text::views(parts@),
            strs(cells@) == nonempty_trimmed(ps.take(j as int)),
        decreases parts@.len() - j,
    {
        let cl = trim_vec(parts[j].as_slice());
        assert(ps.take(j + 1).drop_last() =~= ps.take(j as int));
        assert(ps.take(j + 1).last() == parts@[j as int]@);
        if cl.len() > 0 {
            let ghost before = strs(cells@);
            cells.push(chars_string(cl.as_slice()));
            assert(strs(cells@) =~= before.push(cl@));
        }
        j = j + 1;
    }
    assert(ps.take(parts@.len() as int) =~= ps);
    cells
}


/// The trimmed parts of a comma-separated list.
fn comma_list(s: &[char]) -> (r: Vec<String>)
    ensures
        strs(r@) == text::split_char(s@, ',').map_values(|k: Seq<char>| text::trim(k)),
{
    let parts = split_char_exec(s, ',');
    let ghost ps = text::views(parts@);
    let mut out: Vec<String> = Vec::new();
    let mut k: usize = 0;
    while k < parts.len()
        invariant
            k <= parts@.len(),
            ps == text::views(parts@),
            strs(out@) == ps.take(k as int).map_values(|x: Seq<char>| text::trim(x)),
        decreases parts@.len() - k,
    {
        let t = trim_vec(parts[k].as_slice());
        let ghost before = strs(out@);
        out.push(chars_string(t.as_slice()));
        assert(strs(out@) =~= before.push(t@));
        assert(ps.take(k + 1).map_values(|x: Seq<char>| text::trim(x)) =~= ps.take(k as int).map_values(
            |x: Seq<char>| text::trim(x),
        ).push(text::trim(ps[k as int])));
        k = k + 1;
    }
    assert(ps.take(parts@.len() as int) =~= ps);
    out
}

/// The trimmed text after the first `n` characters.
fn trimmed_after(t: &[char], n: usize) -> (r: Vec<char>)
    requires
        n <= t@.len(),
    ensures
        r@ == text::trim(t@.skip(n as int)),
{
    let tail = slice_vec(t, n, t.len());
    assert(tail@ =~= t@.skip(n as int));
    trim_vec(tail.as_slice())
}

impl OrgModeExtractor {
    /// The metadata of an Org text's directives (title, author, date, keywords
    /// and the others, among its first hundred lines) and the text of its tree.
    pub fn extract_metadata_and_content(org_text: &str, org: &OrgTree) -> (r: (Metadata, String))
        ensures
            r.0@ == spec_org_metadata(org_text@),
            r.1@ == text::trim(tree_text(*org)),
    {
        let src = str_chars(org_text);
        let ls = lines_exec(src.as_slice());
        let ghost lv = text::views(ls@);
        let n = if ls.len() <= 100 {
            ls.len()
        } else {
            100
        };
        let ghost first = if lv.len() <= 100 {
            lv
        } else {
            lv.take(100)
        };
        let mut m = Metadata::new();
        let mut title: Option<String> = None;
        let mut author: Option<String> = None;
        let mut keywords: Option<Vec<String>> = None;
        let mut k: usize = 0;
        assert(first.take(0) =~= Seq::<Seq<char>>::empty());
        while k < n
            invariant
                k <= n <= ls@.len(),
                n == first.len(),
                lv == text::views(ls@),
                first == (if lv.len() <= 100 {
                    lv
                } else {
                    lv.take(100)
                }),
                ({
                    let d = directives(first.take(k as int));
                    &&& d.title == opt_str(title)
                    &&& d.author == opt_str(author)
                    &&& d.date == opt_str(m.created_at)
                    &&& d.keywords == opt_strs(keywords)
                    &&& d.others == pairs_view(m.additional@)
                }),
                m.title is None,
                m.subject is None,
                m.created_by is None,
                m.authors is None,
                m.keywords is None,
                m.language is None,
                m.abstract_text is None,
                m.category is None,
                m.tags is None,
                m.document_version is None,
            decreases n - k,
        {
            assert(first.take(k + 1).drop_last() =~= first.take(k as int));
            assert(first.take(k + 1).last() == lv[k as int]);
            let t = trim_vec(ls[k].as_slice());
            let ts = t.as_slice();
            proof {
                reveal_strlit("#+TITLE:");
                reveal_strlit("#+AUTHOR:");
                reveal_strlit("#+DATE:");
                reveal_strlit("#+KEYWORDS:");
                reveal_strlit("#+");
            }
            if starts_with_str(ts, "#+TITLE:") {
                let v = trimmed_after(ts, 8);
                title = Some(chars_string(v.as_slice()));
            } else if starts_with_str(ts, "#+AUTHOR:") {
                let v = trimmed_after(ts, 9);
                author = Some(chars_string(v.as_slice()));
            } else if starts_with_str(ts, "#+DATE:") {
                let v = trimmed_after(ts, 7);
                m.created_at = Some(chars_string(v.as_slice()));
                m.insert_additional(String::from_str("date"), chars_string(v.as_slice()));
            } else if starts_with_str(ts, "#+KEYWORDS:") {
                let v = trimmed_after(ts, 11);
                keywords = Some(comma_list(v.as_slice()));
            } else if starts_with_str(ts, "#+") {
                let rest = slice_vec(ts, 2, ts.len());
                assert(rest@ =~= t@.skip(2));
                match text::find_char_exec(rest.as_slice(), ':') {
                    Some(c) => {
                        proof {
                            text::lemma_find_char_some(rest@, ':');
                        }
                        let kc = slice_vec(rest.as_slice(), 0, c);
                        assert(kc@ =~= rest@.take(c as int));
                        let kt = trim_vec(kc.as_slice());
                        let key = to_lowercase(chars_string(kt.as_slice()).as_str());
                        let value = trimmed_after(rest.as_slice(), c + 1);
                        if !key.as_str().is_empty() && value.len() > 0 {
                            let mut full: Vec<char> = Vec::new();
                            push_str(&mut full, "directive_");
                            push_str(&mut full, key.as_str());
                            m.insert_additional(chars_string(full.as_slice()), chars_string(value.as_slice()));
                        }
                    },
                    None => {},
                }
            }
            k = k + 1;
        }
        assert(first.take(n as int) =~= first);
        m.title = title;
        m.authors = match author {
            Some(a) => {
                let mut v: Vec<String> = Vec::new();
                let ghost av = a@;
                v.push(a);
                assert(strs(v@) =~= seq![av]);
                Some(v)
            },
            None => None,
        };
        m.keywords = keywords;
        let content = OrgModeExtractor::extract_content(org);
        (m, content)
    }
}


/// A document parsed by the `org` crate, read through the functions below.
#[verifier::external_type_specification]
#[verifier::external_body]
pub struct ExOrg(org::Org);

/// `org::Org::heading`: the heading of a parsed tree.
#[verifier::external_body]
fn org_heading(o: &org::Org) -> String {
    o.heading().to_string()
}

/// `org::Org::content_as_ref`: the content lines of a parsed tree.
#[verifier::external_body]
fn org_content(o: &org::Org) -> Vec<String> {
    o.content_as_ref().clone()
}

/// `org::Org::subtrees_as_ref`: the subtrees of a parsed tree, in order.
#[verifier::external_body]
fn org_subtrees(o: &org::Org) -> &Vec<org::Org> {
    o.subtrees_as_ref()
}

/// A parsed tree in the library's form; `depth` bounds how deep the walk goes
/// (a tree has no more levels than the document has lines).
fn org_tree(o: &org::Org, depth: usize) -> OrgTree
    decreases depth,
{
    let subs = org_subtrees(o);
    let mut subtrees: Vec<OrgTree> = Vec::new();
    let mut k: usize = 0;
    while depth > 0 && k < subs.len()
        decreases subs.len() - k,
    {
        subtrees.push(org_tree(&subs[k], depth - 1));
        k = k + 1;
    }
    OrgTree { heading: org_heading(o), content: org_content(o), subtrees }
}

/// The tree that `org::Org::from_vec` reads from `lines`, in the library's form,
/// or the text of its error.
pub uninterp spec fn org_parsed(lines: Seq<Seq<char>>) -> Result<OrgTree, Seq<char>>;

/// `org::Org::from_vec`: the tree of the document whose lines are `lines`, in the
/// library's form, or the text of the error it returns. The claim is that the
/// result depends on the lines alone.
#[verifier::external_body]
fn org_from_lines(lines: &Vec<String>) -> (r: Result<OrgTree, String>)
    ensures
        match r {
            Ok(t) => org_parsed(strs(lines@)) == Ok::<OrgTree, Seq<char>>(t),
            Err(m) => org_parsed(strs(lines@)) == Err::<OrgTree, Seq<char>>(m@),
        },
{
    match org::Org::from_vec(lines) {
        Ok(o) => Ok(org_tree(&o, lines.len())),
        Err(e) => Err(e.to_string()),
    }
}

/// The document of an Org file's bytes: that of its text, with the metadata of
/// its directives, the tables of its tree, and `mime_type`.
pub open spec fn spec_org_bytes_document(text: Seq<char>, tree: OrgTree) -> DocView {
    let d = spec_org_document(text);
    DocView { meta: spec_org_metadata(text), tables: d.tables + tree_tables(tree), ..d }
}

impl OrgModeExtractor {
    /// The structured document of an Org file's bytes (read as UTF-8, invalid
    /// sequences replaced), with its MIME type, the metadata of its directives
    /// and the tables of its tree; the error of the tree parser where it fails.
    pub fn extract_bytes(content: &[u8], mime_type: &str) -> (r: Result<InternalDocument, KreuzbergError>)
        ensures
            match org_parsed(text::lines(utf8_lossy(content@))) {
                Ok(tree) => r matches Ok(d) && d@ == spec_org_bytes_document(utf8_lossy(content@), tree)
                    && d.mime_type@ == mime_type@ && d.source_format@ == "orgmode"@,
                Err(m) => r matches Err(KreuzbergError::Parsing(e)) && e@ == m,
            },
    {
        let org_text = from_utf8_lossy(content);
        let c = str_chars(org_text.as_str());
        let ls = lines_exec(c.as_slice());
        let mut lines: Vec<String> = Vec::new();
        let mut k: usize = 0;
        while k < ls.len()
            invariant
                k <= ls@.len(),
                strs(lines@) == text::views(ls@).take(k as int),
            decreases ls@.len() - k,
        {
            let line = chars_string(ls[k].as_slice());
            let ghost before = lines@;
            lines.push(line);
            assert(lines@ == before.push(line));
            assert(strs(lines@) =~= strs(before).push(line@));
            assert(text::views(ls@)[k as int] == ls@[k as int]@);
            assert(text::views(ls@).take(k + 1) =~= text::views(ls@).take(k as int).push(ls@[k as int]@));
            k = k + 1;
        }
        assert(text::views(ls@).take(ls@.len() as int) =~= text::views(ls@));
        let tree = match org_from_lines(&lines) {
            Ok(t) => t,
            Err(m) => {
                return Err(KreuzbergError::Parsing(m));
            },
        };
        let (metadata, _content) = OrgModeExtractor::extract_metadata_and_content(org_text.as_str(), &tree);
        let tables = OrgModeExtractor::extract_tables(&tree);
        let mut doc = OrgModeExtractor::build_internal_document(org_text.as_str());
        doc.mime_type = mime_type.to_string();
        doc.metadata = metadata;
        let ghost base = doc@;
        let ghost all = tables_view(tables@);
        let mut rest = tables;
        while rest.len() > 0
            invariant
                rest@.len() <= all.len(),
                tables_view(rest@) == all.skip(all.len() - rest@.len()),
                doc@ == (DocView { tables: base.tables + all.take(all.len() - rest@.len()), ..base }),
                doc.mime_type@ == mime_type@,
                doc.source_format@ == "orgmode"@,
            decreases rest@.len(),
        {
            let ghost done = all.len() - rest@.len();
            let ghost old_rest = rest@;
            let t = rest.remove(0);
            assert(tables_view(old_rest)[0] == all.skip(done)[0]);
            assert(t@ == all[done]);
            assert(rest@ =~= old_rest.subrange(1, old_rest.len() as int));
            assert(tables_view(rest@) =~= tables_view(old_rest).subrange(1, old_rest.len() as int));
            assert(tables_view(rest@) =~= all.skip(all.len() - rest@.len()));
            doc.push_table(t);
            assert(base.tables + all.take(done + 1) =~= (base.tables + all.take(done)).push(all[done]));
        }
        assert(all.take(all.len() as int) =~= all);
        Ok(doc)
    }
}
} // verus!
