//! Markdown pipe tables built from rows of cells.

use vstd::prelude::*;
use crate::text::{chars_string, push_str};
use crate::types::{rows_view, strs};

verus! {

/// `" cell |"` for each cell of a row.
pub open spec fn cells_md(row: Seq<Seq<char>>) -> Seq<char>
    decreases row.len(),
{
    if row.len() == 0 {
        seq![]
    } else {
        cells_md(row.drop_last()) + " "@ + row.last() + " |"@
    }
}

/// One table row: `|`, the cells, a line break.
pub open spec fn row_md(row: Seq<Seq<char>>) -> Seq<char> {
    "|"@ + cells_md(row) + "\n"@
}

/// `n` separator cells.
pub open spec fn dashes(n: nat) -> Seq<char>
    decreases n,
{
    if n == 0 {
        seq![]
    } else {
        dashes((n - 1) as nat) + " --- |"@
    }
}

/// The separator line under a header of `n` cells.
pub open spec fn sep_md(n: nat) -> Seq<char> {
    "|"@ + dashes(n) + "\n"@
}

/// Rows one after another.
pub open spec fn rows_md(rows: Seq<Seq<Seq<char>>>) -> Seq<char>
    decreases rows.len(),
{
    if rows.len() == 0 {
        seq![]
    } else {
        rows_md(rows.drop_last()) + row_md(rows.last())
    }
}

/// A table whose first row is set off as a header only when more rows follow.
pub open spec fn table_md(rows: Seq<Seq<Seq<char>>>) -> Seq<char> {
    if rows.len() == 0 {
        seq![]
    } else if rows.len() == 1 {
        row_md(rows[0])
    } else {
        row_md(rows[0]) + sep_md(rows[0].len()) + rows_md(rows.drop_first())
    }
}

/// A table whose first row is always set off as a header.
pub open spec fn table_md_with_header(rows: Seq<Seq<Seq<char>>>) -> Seq<char> {
    if rows.len() == 0 {
        seq![]
    } else {
        row_md(rows[0]) + sep_md(rows[0].len()) + rows_md(rows.drop_first())
    }
}

/// Appends one row.
pub fn push_row_md(out: &mut Vec<char>, row: &[String])
    ensures
        final(out)@ == old(out)@ + row_md(strs(row@)),
{
    let ghost start = out@;
    push_str(out, "|");
    let mut k: usize = 0;
    while k < row.len()
        invariant
            k <= row@.len(),
            out@ == start + "|"@ + cells_md(strs(row@).take(k as int)),
        decreases row@.len() - k,
    {
        let ghost before = out@;
        push_str(out, " ");
        push_str(out, row[k].as_str());
        push_str(out, " |");
        proof {
            let r = strs(row@);
            assert(r.take(k + 1).drop_last() =~= r.take(k as int));
            assert(r.take(k + 1).last() == row@[k as int]@);
            assert(out@ =~= start + "|"@ + cells_md(r.take(k + 1)));
        }
        k = k + 1;
    }
    push_str(out, "\n");
    proof {
        assert(strs(row@).take(row@.len() as int) =~= strs(row@));
        assert(out@ =~= old(out)@ + row_md(strs(row@)));
    }
}

/// Appends the separator line for `n` header cells.
pub fn push_sep_md(out: &mut Vec<char>, n: usize)
    ensures
        final(out)@ == old(out)@ + sep_md(n as nat),
{
    let ghost start = out@;
    push_str(out, "|");
    let mut k: usize = 0;
    while k < n
        invariant
            k <= n,
            out@ == start + "|"@ + dashes(k as nat),
        decreases n - k,
    {
        push_str(out, " --- |");
        assert(out@ =~= start + "|"@ + dashes((k + 1) as nat));
        k = k + 1;
    }
    push_str(out, "\n");
    assert(out@ =~= old(out)@ + sep_md(n as nat));
}

/// Appends rows `from..` one after another.
fn push_rows_md(out: &mut Vec<char>, rows: &[Vec<String>], from: usize)
    requires
        from <= rows@.len(),
    ensures
        final(out)@ == old(out)@ + rows_md(rows_view(rows@).skip(from as int)),
{
    let ghost start = out@;
    let ghost rv = rows_view(rows@).skip(from as int);
    let mut k = from;
    assert(rv.take(0) =~= Seq::<Seq<Seq<char>>>::empty());
    while k < rows.len()
        invariant
            from <= k <= rows@.len(),
            rv == rows_view(rows@).skip(from as int),
            out@ == start + rows_md(rv.take(k - from)),
        decreases rows@.len() - k,
    {
        push_row_md(out, rows[k].as_slice());
        proof {
            assert(rv.take(k - from + 1).drop_last() =~= rv.take(k - from));
            assert(rv.take(k - from + 1).last() == strs(rows@[k as int]@));
            assert(out@ =~= start + rows_md(rv.take(k - from + 1)));
        }
        k = k + 1;
    }
    assert(rv.take(k - from) =~= rv);
}

/// A Markdown table whose first row is a header only when more rows follow.
pub fn table_markdown(rows: &[Vec<String>]) -> (md: Vec<char>)
    ensures
        md@ == table_md(rows_view(rows@)),
{
    let mut out: Vec<char> = Vec::new();
    if rows.len() == 0 {
        return out;
    }
    push_row_md(&mut out, rows[0].as_slice());
    if rows.len() > 1 {
        push_sep_md(&mut out, rows[0].len());
        push_rows_md(&mut out, rows, 1);
        assert(rows_view(rows@).skip(1) =~= rows_view(rows@).drop_first());
    }
    out
}

/// A Markdown table whose first row is always a header.
pub fn table_markdown_with_header(rows: &[Vec<String>]) -> (md: Vec<char>)
    ensures
        md@ == table_md_with_header(rows_view(rows@)),
{
    let mut out: Vec<char> = Vec::new();
    if rows.len() == 0 {
        return out;
    }
    push_row_md(&mut out, rows[0].as_slice());
    push_sep_md(&mut out, rows[0].len());
    push_rows_md(&mut out, rows, 1);
    assert(rows_view(rows@).skip(1) =~= rows_view(rows@).drop_first());
    out
}

/// The Markdown table of `rows` as a string, with the header set off only when
/// more rows follow.
pub fn table_markdown_string(rows: &[Vec<String>]) -> (md: String)
    ensures
        md@ == table_md(rows_view(rows@)),
{
    let v = table_markdown(rows);
    chars_string(v.as_slice())
}

} // verus!
