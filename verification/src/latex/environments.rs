//! LaTeX list and table environments rendered as Markdown.

use vstd::prelude::*;
use crate::text;
use crate::text::{
    chars_string, contains_str, find_char_exec, find_str, lines_exec, push_all, push_decimal,
    push_str, replace_str, slice_vec, split_char_exec, starts_with_str, str_chars, trim_vec,
};
use crate::types::{Table, TableView, tables_view};
use crate::markdown_table::{table_markdown, table_md};
use super::commands::{eq_str, process_line, spec_process_line};
use super::utilities::{
    clean_text, collect_environment, extract_braced, extract_env_name, spec_clean_text,
    spec_collect_environment, spec_extract_braced, spec_extract_env_name,
};

verus! {

// ---------------------------------------------------------------------------
// Tables
// ---------------------------------------------------------------------------

/// The cleaned, non-empty cells among `parts`.
pub open spec fn nonempty_cells(parts: Seq<Seq<char>>) -> Seq<Seq<char>>
    decreases parts.len(),
{
    if parts.len() == 0 {
        seq![]
    } else {
        let r = nonempty_cells(parts.drop_last());
        let c = spec_clean_text(text::trim(parts.last()));
        if c.len() > 0 {
            r.push(c)
        } else {
            r
        }
    }
}

/// The cells of one table line: `\\` removed, split at `&`, cleaned, empty ones dropped.
pub open spec fn row_cells(t: Seq<char>) -> Seq<Seq<char>> {
    nonempty_cells(text::split_char(text::replace(t, "\\\\"@, ""@), '&'))
}

/// Lines of a tabular that hold no row.
pub open spec fn skipped_table_line(t: Seq<char>) -> bool {
    text::starts_with(t, "\\hline"@) || t.len() == 0 || text::contains(t, "\\begin{tabular}"@)
}

/// The rows of a tabular body, one per line that has cells.
pub open spec fn table_rows(ls: Seq<Seq<char>>) -> Seq<Seq<Seq<char>>>
    decreases ls.len(),
{
    if ls.len() == 0 {
        seq![]
    } else {
        let r = table_rows(ls.drop_last());
        let t = text::trim(ls.last());
        if skipped_table_line(t) {
            r
        } else {
            let c = row_cells(t);
            if c.len() > 0 {
                r.push(c)
            } else {
                r
            }
        }
    }
}

/// The cleaned non-empty cells of `t`, as strings.
fn cells_of_line(t: &[char]) -> (r: Vec<String>)
    ensures
        crate::types::strs(r@) == row_cells(t@),
{
    let row_str = replace_str(t, "\\\\", "");
    let parts = split_char_exec(row_str.as_slice(), '&');
    let ghost ps = text::views(parts@);
    let mut cells: Vec<String> = Vec::new();
    let mut k: usize = 0;
    assert(ps.take(0) =~= Seq::<Seq<char>>::empty());
    assert(crate::types::strs(cells@) =~= Seq::<Seq<char>>::empty());
    while k < parts.len()
        invariant
            k <= parts@.len(),
            ps == text::views(parts@),
            crate::types::strs(cells@) == nonempty_cells(ps.take(k as int)),
        decreases parts@.len() - k,
    {
        let tp = trim_vec(parts[k].as_slice());
        let c = clean_text(tp.as_slice());
        proof {
            assert(ps.take(k + 1).drop_last() =~= ps.take(k as int));
            assert(ps.take(k + 1).last() == parts@[k as int]@);
        }
        if c.len() > 0 {
            let cs = chars_string(c.as_slice());
            let ghost before = cells@;
            cells.push(cs);
            assert(crate::types::strs(cells@) =~= crate::types::strs(before).push(c@));
        }
        k = k + 1;
    }
    assert(ps.take(parts@.len() as int) =~= ps);
    cells
}

/// Converts a tabular body into Markdown: appends the table to `output` and records
/// it in `tables`; a body without rows changes nothing.
pub fn process_table(content: &[char], output: &mut Vec<char>, tables: &mut Vec<Table>)
    ensures
        ({
            let rows = table_rows(text::lines(content@));
            if rows.len() == 0 {
                final(output)@ == old(output)@ && final(tables)@ == old(tables)@
            } else {
                &&& final(output)@ == old(output)@ + table_md(rows)
                &&& tables_view(final(tables)@) == tables_view(old(tables)@).push(
                    TableView { cells: rows, markdown: table_md(rows), page_number: 1 },
                )
            }
        }),
{
    let ls = lines_exec(content);
    let ghost lv = text::views(ls@);
    let mut rows: Vec<Vec<String>> = Vec::new();
    let mut k: usize = 0;
    assert(lv.take(0) =~= Seq::<Seq<char>>::empty());
    assert(crate::types::rows_view(rows@) =~= Seq::<Seq<Seq<char>>>::empty());
    while k < ls.len()
        invariant
            k <= ls@.len(),
            lv == text::views(ls@),
            crate::types::rows_view(rows@) == table_rows(lv.take(k as int)),
        decreases ls@.len() - k,
    {
        let t = trim_vec(ls[k].as_slice());
        proof {
            assert(lv.take(k + 1).drop_last() =~= lv.take(k as int));
            assert(lv.take(k + 1).last() == ls@[k as int]@);
        }
        if !(starts_with_str(t.as_slice(), "\\hline") || t.len() == 0 || contains_str(
            t.as_slice(),
            "\\begin{tabular}",
        )) {
            let cells = cells_of_line(t.as_slice());
            if cells.len() > 0 {
                let ghost before = rows@;
                rows.push(cells);
                assert(crate::types::rows_view(rows@) =~= crate::types::rows_view(before).push(
                    row_cells(t@),
                ));
            }
        }
        k = k + 1;
    }
    assert(lv.take(ls@.len() as int) =~= lv);
    if rows.len() > 0 {
        let md = table_markdown(rows.as_slice());
        push_all(output, md.as_slice());
        let ms = chars_string(md.as_slice());
        let ghost before = tables@;
        tables.push(Table { cells: rows, markdown: ms, page_number: 1 });
        assert(tables_view(tables@) =~= tables_view(before).push(
            TableView {
                cells: table_rows(text::lines(content@)),
                markdown: table_md(table_rows(text::lines(content@))),
                page_number: 1,
            },
        ));
    }
}

/// The tabular part of a table environment can be cut out: `\end{tabular}` does
/// not end before `\begin{tabular}` starts.
pub open spec fn tabular_in_order(content: Seq<char>) -> bool {
    match (text::find(content, "\\begin{tabular}"@), text::find(content, "\\end{tabular}"@)) {
        (Some(s), Some(e)) => s <= e + "\\end{tabular}"@.len(),
        _ => true,
    }
}

/// The tabular part of a table environment: from its `\begin{tabular}` to the end
/// of its first `\end{tabular}`.
pub open spec fn tabular_part(content: Seq<char>) -> Option<Seq<char>> {
    match (text::find(content, "\\begin{tabular}"@), text::find(content, "\\end{tabular}"@)) {
        (Some(s), Some(e)) => Some(content.subrange(s as int, e as int + "\\end{tabular}"@.len())),
        _ => None,
    }
}

/// Processes a table environment: its caption on a line of its own, then its tabular.
pub fn process_table_with_caption(content: &[char], output: &mut Vec<char>, tables: &mut Vec<Table>)
    requires
        tabular_in_order(content@),
    ensures
        ({
            let cap = if text::contains(content@, "\\caption{"@) {
                match spec_extract_braced(content@, "caption"@) {
                    Some(c) => c + "\n"@,
                    None => seq![],
                }
            } else {
                seq![]
            };
            match tabular_part(content@) {
                None => final(output)@ == old(output)@ + cap && final(tables)@ == old(tables)@,
                Some(tab) => {
                    let rows = table_rows(text::lines(tab));
                    if rows.len() == 0 {
                        final(output)@ == old(output)@ + cap && final(tables)@ == old(tables)@
                    } else {
                        &&& final(output)@ == old(output)@ + cap + table_md(rows)
                        &&& tables_view(final(tables)@) == tables_view(old(tables)@).push(
                            TableView { cells: rows, markdown: table_md(rows), page_number: 1 },
                        )
                    }
                },
            }
        }),
{
    let ghost start_out = output@;
    if contains_str(content, "\\caption{") {
        let cap_name = str_chars("caption");
        match extract_braced(content, cap_name.as_slice()) {
            Some(c) => {
                push_all(output, c.as_slice());
                push_str(output, "\n");
            },
            None => {},
        }
    }
    let ghost after_cap = output@;
    assert(text::contains(content@, "\\begin{tabular}"@) == (text::find(
        content@,
        "\\begin{tabular}"@,
    ) is Some));
    match find_str(content, "\\begin{tabular}") {
        None => {},
        Some(s) => match find_str(content, "\\end{tabular}") {
            None => {},
            Some(e) => {
                proof {
                    text::lemma_find_from(content@, "\\end{tabular}"@, 0);
                    assert(e + "\\end{tabular}"@.len() <= content@.len() == content.len());
                }
                let endpat = str_chars("\\end{tabular}");
                let tab = slice_vec(content, s, e + endpat.len());
                process_table(tab.as_slice(), output, tables);
            },
        },
    }
}

// ---------------------------------------------------------------------------
// Lists
// ---------------------------------------------------------------------------

/// The environments treated as lists.
pub open spec fn is_list_env(e: Seq<char>) -> bool {
    e == "itemize"@ || e == "enumerate"@ || e == "description"@
}

/// Each line indented by two spaces and ended by a line break.
pub open spec fn indent_lines(ls: Seq<Seq<char>>) -> Seq<char>
    decreases ls.len(),
{
    if ls.len() == 0 {
        seq![]
    } else {
        indent_lines(ls.drop_last()) + "  "@ + ls.last() + "\n"@
    }
}

/// The marker of item number `num` in a list of type `lt`.
pub open spec fn item_prefix(lt: Seq<char>, num: nat) -> Seq<char> {
    if lt == "enumerate"@ {
        text::decimal(num) + ". "@
    } else {
        "- "@
    }
}

/// A list environment's body as Markdown, followed by an empty line.
pub open spec fn spec_process_list(content: Seq<char>, lt: Seq<char>) -> Seq<char>
    decreases content.len(), 1int, 0int,
{
    list_from(text::lines(content), 0, 1, lt, content.len()) + "\n"@
}

/// The rendering of one `\\item` line `t`, number `num` in a list of type `lt`.
pub open spec fn item_text(t: Seq<char>, lt: Seq<char>, num: nat) -> Seq<char> {
    let after = text::trim(t.skip("\\item"@.len() as int));
    let be = text::find_char(after, ']');
    if after.len() > 0 && after[0] == '[' && be is Some && lt == "description"@ && be->0 >= 1 {
        let label = after.subrange(1, be->0 as int);
        let body = text::trim(after.skip(be->0 as int + 1));
        label + ": "@ + spec_process_line(body) + "\n"@
    } else {
        item_prefix(lt, num) + text::trim(spec_process_line(after)) + "\n"@
    }
}

/// The rendering of list lines from `i` on, the next item being number `num`.
/// Nested lists are rendered only when their body is shorter than `budget`, which
/// holds for every body collected from a list.
pub open spec fn list_from(ls: Seq<Seq<char>>, i: nat, num: nat, lt: Seq<char>, budget: nat) -> Seq<
    char,
>
    decreases budget, 0int, ls.len() - i,
{
    if i >= ls.len() {
        seq![]
    } else {
        let t = text::trim(ls[i as int]);
        let env = if text::contains(t, "\\begin{"@) {
            spec_extract_env_name(t)
        } else {
            None
        };
        if env is Some && is_list_env(env->0) {
            let e = env->0;
            let (nc, ni) = spec_collect_environment(ls, i, e);
            let nested = if nc.len() < budget {
                spec_process_list(nc, e)
            } else {
                seq![]
            };
            let next = if i < ni && ni <= ls.len() {
                ni
            } else {
                i + 1
            };
            indent_lines(text::lines(nested)) + list_from(ls, next, num, lt, budget)
        } else if text::starts_with(t, "\\item"@) {
            item_text(t, lt, num) + list_from(ls, i + 1, num + 1, lt, budget)
        } else {
            list_from(ls, i + 1, num, lt, budget)
        }
    }
}

/// Lines that are each an `\item` line holding no nested environment.
pub open spec fn flat_item_lines(ls: Seq<Seq<char>>) -> bool {
    forall|j: int|
        0 <= j < ls.len() ==> text::starts_with(text::trim(#[trigger] ls[j]), "\\item"@) && !text::contains(
            text::trim(ls[j]),
            "\\begin{"@,
        )
}

/// Each item as a bullet: the text after `\item`, processed as an ordinary
/// content line is (`process_line`) and trimmed, then a line break.
pub open spec fn bullet_items(ls: Seq<Seq<char>>) -> Seq<char>
    decreases ls.len(),
{
    if ls.len() == 0 {
        seq![]
    } else {
        "- "@ + text::trim(spec_process_line(text::trim(text::trim(ls[0]).skip(5)))) + "\n"@ + bullet_items(
            ls.drop_first(),
        )
    }
}

proof fn lemma_bullets_from(ls: Seq<Seq<char>>, i: nat, num: nat, budget: nat)
    requires
        i <= ls.len(),
        flat_item_lines(ls),
    ensures
        list_from(ls, i, num, "itemize"@, budget) == bullet_items(ls.skip(i as int)),
    decreases ls.len() - i,
{
    reveal_strlit("itemize");
    reveal_strlit("enumerate");
    reveal_strlit("description");
    reveal_strlit("\\item");
    if i < ls.len() {
        let t = text::trim(ls[i as int]);
        assert(text::starts_with(t, "\\item"@) && !text::contains(t, "\\begin{"@));
        assert("itemize"@ != "description"@) by {
            assert("itemize"@.len() != "description"@.len());
        }
        assert("itemize"@ != "enumerate"@) by {
            assert("itemize"@.len() != "enumerate"@.len());
        }
        assert("\\item"@.len() == 5);
        lemma_bullets_from(ls, i + 1, num + 1, budget);
        assert(ls.skip(i as int)[0] == ls[i as int]);
        assert(ls.skip(i as int).drop_first() =~= ls.skip(i + 1int));
        assert(item_text(t, "itemize"@, num) == "- "@ + text::trim(spec_process_line(text::trim(t.skip(5)))) + "\n"@);
    } else {
        assert(ls.skip(i as int) =~= Seq::<Seq<char>>::empty());
    }
}

/// An `itemize` body made of `\item` lines renders each item as a bullet whose
/// text is the item's body processed exactly as an ordinary content line
/// (`process_line`: inline commands such as `\textbf{..}` become their text) and
/// trimmed, the list followed by an empty line.
pub proof fn lemma_itemize_bullets(content: Seq<char>)
    requires
        flat_item_lines(text::lines(content)),
    ensures
        spec_process_list(content, "itemize"@) == bullet_items(text::lines(content)) + "\n"@,
{
    let ls = text::lines(content);
    lemma_bullets_from(ls, 0, 1, content.len());
    assert(ls.skip(0) =~= ls);
}

/// Each item numbered from `num`: the number, a period and a space, the text
/// after `\item` processed as an ordinary content line and trimmed, then a line
/// break.
pub open spec fn numbered_items(ls: Seq<Seq<char>>, num: nat) -> Seq<char>
    decreases ls.len(),
{
    if ls.len() == 0 {
        seq![]
    } else {
        text::decimal(num) + ". "@ + text::trim(spec_process_line(text::trim(text::trim(ls[0]).skip(5)))) + "\n"@
            + numbered_items(ls.drop_first(), num + 1)
    }
}

proof fn lemma_numbered_from(ls: Seq<Seq<char>>, i: nat, num: nat, budget: nat)
    requires
        i <= ls.len(),
        flat_item_lines(ls),
    ensures
        list_from(ls, i, num, "enumerate"@, budget) == numbered_items(ls.skip(i as int), num),
    decreases ls.len() - i,
{
    reveal_strlit("enumerate");
    reveal_strlit("description");
    reveal_strlit("\\item");
    if i < ls.len() {
        let t = text::trim(ls[i as int]);
        assert(text::starts_with(t, "\\item"@) && !text::contains(t, "\\begin{"@));
        assert("enumerate"@ != "description"@) by {
            assert("enumerate"@.len() != "description"@.len());
        }
        assert("\\item"@.len() == 5);
        lemma_numbered_from(ls, i + 1, num + 1, budget);
        assert(ls.skip(i as int)[0] == ls[i as int]);
        assert(ls.skip(i as int).drop_first() =~= ls.skip(i + 1int));
    } else {
        assert(ls.skip(i as int) =~= Seq::<Seq<char>>::empty());
    }
}

/// An `enumerate` body made of `\item` lines numbers its items 1, 2, ... in
/// order, each item's text processed as an ordinary content line and trimmed.
pub proof fn lemma_enumerate_numbers(content: Seq<char>)
    requires
        flat_item_lines(text::lines(content)),
    ensures
        spec_process_list(content, "enumerate"@) == numbered_items(text::lines(content), 1) + "\n"@,
{
    let ls = text::lines(content);
    lemma_numbered_from(ls, 0, 1, content.len());
    assert(ls.skip(0) =~= ls);
}

/// Appends every line of `nested`, indented by two spaces.
fn push_indented(out: &mut Vec<char>, nested: &[char])
    ensures
        final(out)@ == old(out)@ + indent_lines(text::lines(nested@)),
{
    let nl = lines_exec(nested);
    let ghost lv = text::views(nl@);
    let ghost start = out@;
    let mut k: usize = 0;
    assert(lv.take(0) =~= Seq::<Seq<char>>::empty());
    while k < nl.len()
        invariant
            k <= nl@.len(),
            lv == text::views(nl@),
            out@ == start + indent_lines(lv.take(k as int)),
        decreases nl@.len() - k,
    {
        push_str(out, "  ");
        push_all(out, nl[k].as_slice());
        push_str(out, "\n");
        proof {
            assert(lv.take(k + 1).drop_last() =~= lv.take(k as int));
            assert(lv.take(k + 1).last() == nl@[k as int]@);
            assert(out@ =~= start + indent_lines(lv.take(k + 1)));
        }
        k = k + 1;
    }
    assert(lv.take(nl@.len() as int) =~= lv);
}

/// Whether `e` names a list environment.
fn is_list_env_exec(e: &[char]) -> (r: bool)
    ensures
        r == is_list_env(e@),
{
    eq_str(e, "itemize") || eq_str(e, "enumerate") || eq_str(e, "description")
}

/// Appends the rendering of one `\\item` line.
fn push_item(t: &[char], lt: &[char], num: u128, is_description: bool, is_enumerate: bool, output: &mut Vec<char>)
    requires
        text::starts_with(t@, "\\item"@),
        is_description == (lt@ == "description"@),
        is_enumerate == (lt@ == "enumerate"@),
    ensures
        final(output)@ == old(output)@ + item_text(t@, lt@, num as nat),
{
    let item_pat = str_chars("\\item");
    let after_raw = slice_vec(t, item_pat.len(), t.len());
    let after = trim_vec(after_raw.as_slice());
    assert(after_raw@ =~= t@.skip("\\item"@.len() as int));
    let be = find_char_exec(after.as_slice(), ']');
    if after.len() > 0 && after[0] == '[' && is_description {
        if let Some(b) = be {
            if b >= 1 {
                proof {
                    text::lemma_find_char_some(after@, ']');
                }
                let label = slice_vec(after.as_slice(), 1, b);
                let body_raw = slice_vec(after.as_slice(), b + 1, after.len());
                let body = trim_vec(body_raw.as_slice());
                assert(body_raw@ =~= after@.skip(b + 1));
                let pb = process_line(body.as_slice());
                let ghost before = output@;
                push_all(output, label.as_slice());
                push_str(output, ": ");
                push_all(output, pb.as_slice());
                push_str(output, "\n");
                assert(output@ =~= before + item_text(t@, lt@, num as nat));
                return;
            }
        }
    }
    let ghost before = output@;
    if is_enumerate {
        push_decimal(output, num);
        push_str(output, ". ");
    } else {
        push_str(output, "- ");
    }
    let pa = process_line(after.as_slice());
    let pt = trim_vec(pa.as_slice());
    push_all(output, pt.as_slice());
    push_str(output, "\n");
    assert(output@ =~= before + item_text(t@, lt@, num as nat));
}

/// Converts a list environment body (itemize, enumerate or description) into a
/// Markdown list, nested lists indented, and appends it to `output`.
pub fn process_list(content: &[char], lt: &[char], output: &mut Vec<char>)
    ensures
        final(output)@ == old(output)@ + spec_process_list(content@, lt@),
    decreases content@.len(), 1int,
{
    let ls = lines_exec(content);
    let ghost lv = text::views(ls@);
    let ghost budget = content@.len();
    let ghost start = output@;
    let mut i: usize = 0;
    let mut num: u128 = 1;
    let is_description = eq_str(lt, "description");
    let is_enumerate = eq_str(lt, "enumerate");
    while i < ls.len()
        invariant
            i <= ls@.len(),
            lv == text::views(ls@),
            budget == content@.len(),
            is_description == (lt@ == "description"@),
            is_enumerate == (lt@ == "enumerate"@),
            1 <= num <= i + 1,
            start + list_from(lv, 0, 1, lt@, budget) == output@ + list_from(
                lv,
                i as nat,
                num as nat,
                lt@,
                budget,
            ),
        decreases ls@.len() - i,
    {
        let ghost before = output@;
        let t = trim_vec(ls[i].as_slice());
        assert(t@ == text::trim(lv[i as int]));
        let env = if contains_str(t.as_slice(), "\\begin{") {
            extract_env_name(t.as_slice())
        } else {
            None
        };
        let mut handled = false;
        if let Some(e) = env {
            if is_list_env_exec(e.as_slice()) {
                let (nc, ni) = collect_environment(ls.as_slice(), i, e.as_slice());
                let mut nested: Vec<char> = Vec::new();
                if nc.len() < content.len() {
                    process_list(nc.as_slice(), e.as_slice(), &mut nested);
                }
                assert(nested@ =~= if nc@.len() < budget {
                    spec_process_list(nc@, e@)
                } else {
                    seq![]
                });
                push_indented(output, nested.as_slice());
                let next = if i < ni && ni <= ls.len() {
                    ni
                } else {
                    i + 1
                };
                assert(output@ + list_from(lv, next as nat, num as nat, lt@, budget) =~= before
                    + list_from(lv, i as nat, num as nat, lt@, budget));
                i = next;
                handled = true;
            }
        }
        if !handled {
            if starts_with_str(t.as_slice(), "\\item") {
                push_item(t.as_slice(), lt, num, is_description, is_enumerate, output);
                assert(output@ + list_from(lv, (i + 1) as nat, (num + 1) as nat, lt@, budget)
                    =~= before + list_from(lv, i as nat, num as nat, lt@, budget));
                num = num + 1;
            }
            i = i + 1;
        }
    }
    assert(list_from(lv, i as nat, num as nat, lt@, budget) == Seq::<char>::empty());
    push_str(output, "\n");
    assert(output@ =~= start + spec_process_list(content@, lt@));
}

} // verus!
