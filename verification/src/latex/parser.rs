//! The line-by-line LaTeX parser: document body to text, preamble to metadata,
//! tabulars to tables.

use vstd::prelude::*;
use crate::text;
use crate::text::{
    chars_string, contains_str, find_str, lines_exec, push_all, push_str, slice_vec,
    starts_with_exec, starts_with_str, str_chars, trim_vec,
};
use crate::types::{Metadata, MetadataView, Table, TableView, empty_metadata, tables_view};
use crate::markdown_table::table_md;
use super::commands::{eq_str, process_line, spec_process_line};
use super::environments::{
    is_list_env, process_list, process_table, process_table_with_caption, spec_process_list,
    table_rows, tabular_in_order, tabular_part,
};
use super::metadata::{extract_metadata_from_line, spec_metadata_from_line};
use super::utilities::{
    collect_environment, extract_braced, extract_env_name, extract_heading_title,
    spec_collect_environment, spec_extract_braced, spec_extract_env_name,
    spec_extract_heading_title,
};

verus! {

/// What the parser has produced so far.
pub struct PState {
    pub out: Seq<char>,
    pub meta: MetadataView,
    pub tables: Seq<TableView>,
}

/// Appends text to the output.
pub open spec fn emit(st: PState, s: Seq<char>) -> PState {
    PState { out: st.out + s, ..st }
}

// ---------------------------------------------------------------------------
// Prefix and suffix stripping
// ---------------------------------------------------------------------------

/// `s` with every leading repetition of a non-empty `p` removed (`str::trim_start_matches`).
pub open spec fn trim_start_matches(s: Seq<char>, p: Seq<char>) -> Seq<char>
    decreases s.len(),
{
    if p.len() > 0 && text::starts_with(s, p) {
        trim_start_matches(s.skip(p.len() as int), p)
    } else {
        s
    }
}

/// `s` with every trailing repetition of a non-empty `p` removed (`str::trim_end_matches`).
pub open spec fn trim_end_matches(s: Seq<char>, p: Seq<char>) -> Seq<char>
    decreases s.len(),
{
    if p.len() > 0 && text::ends_with(s, p) {
        trim_end_matches(s.take(s.len() - p.len()), p)
    } else {
        s
    }
}

pub fn trim_start_matches_exec(s: &[char], p: &[char]) -> (r: Vec<char>)
    ensures
        r@ == trim_start_matches(s@, p@),
{
    let mut a: usize = 0;
    assert(s@.skip(0) =~= s@);
    while p.len() > 0 && a <= s.len() && text::matches_at_exec(s, a, p)
        invariant
            a <= s@.len(),
            trim_start_matches(s@, p@) == trim_start_matches(s@.skip(a as int), p@),
        decreases s@.len() - a,
    {
        proof {
            let t = s@.skip(a as int);
            assert(t.subrange(0, p@.len() as int) =~= s@.subrange(a as int, a + p@.len()));
            assert(t.skip(p@.len() as int) =~= s@.skip(a + p@.len()));
        }
        a = a + p.len();
    }
    proof {
        let t = s@.skip(a as int);
        if p@.len() > 0 && text::starts_with(t, p@) {
            assert(t.subrange(0, p@.len() as int) =~= s@.subrange(a as int, a + p@.len()));
        }
    }
    let r = slice_vec(s, a, s.len());
    assert(r@ =~= s@.skip(a as int));
    r
}

pub fn trim_end_matches_exec(s: &[char], p: &[char]) -> (r: Vec<char>)
    ensures
        r@ == trim_end_matches(s@, p@),
{
    let mut b: usize = s.len();
    assert(s@.take(b as int) =~= s@);
    while p.len() > 0 && p.len() <= b && text::matches_at_exec(s, b - p.len(), p)
        invariant
            b <= s@.len(),
            trim_end_matches(s@, p@) == trim_end_matches(s@.take(b as int), p@),
        decreases b,
    {
        proof {
            let t = s@.take(b as int);
            assert(t.subrange(b - p@.len(), b as int) =~= s@.subrange(b - p@.len(), b as int));
            assert(t.take(b - p@.len()) =~= s@.take(b - p@.len()));
        }
        b = b - p.len();
    }
    proof {
        let t = s@.take(b as int);
        if p@.len() > 0 && text::ends_with(t, p@) {
            assert(t.subrange(b - p@.len(), b as int) =~= s@.subrange(b - p@.len(), b as int));
        }
    }
    let r = slice_vec(s, 0, b);
    r
}

// ---------------------------------------------------------------------------
// Headings, display math and plain content
// ---------------------------------------------------------------------------

/// The heading commands, starred forms first, with the Markdown they turn into.
pub open spec fn heading_cmds() -> Seq<(Seq<char>, Seq<char>)> {
    seq![
        ("chapter*"@, "\n# "@),
        ("chapter"@, "\n# "@),
        ("section*"@, "\n# "@),
        ("section"@, "\n# "@),
        ("subsection*"@, "## "@),
        ("subsection"@, "## "@),
        ("subsubsection*"@, "### "@),
        ("subsubsection"@, "### "@),
        ("paragraph*"@, "#### "@),
        ("paragraph"@, "#### "@),
    ]
}

/// The first heading command, from index `k` on, that `t` starts with and that is
/// followed by `{` or `[`.
pub open spec fn heading_match(t: Seq<char>, k: nat) -> Option<nat>
    decreases 10 - k,
{
    if k >= 10 {
        None
    } else {
        let cp = seq!['\\'] + heading_cmds()[k as int].0;
        if text::starts_with(t, cp) && t.len() > cp.len() && (t[cp.len() as int] == '{'
            || t[cp.len() as int] == '[') {
            Some(k)
        } else {
            heading_match(t, k + 1)
        }
    }
}

/// A display-math body continued over the lines from `j`, up to the line that
/// holds `\]`.
pub open spec fn math_collect(ls: Seq<Seq<char>>, j: nat, acc: Seq<char>) -> (Seq<char>, nat)
    decreases ls.len() - j,
{
    if j >= ls.len() {
        (acc, j)
    } else {
        let a = acc + "\n"@ + ls[j as int];
        if text::contains(text::trim(ls[j as int]), "\\]"@) {
            (a, j)
        } else {
            math_collect(ls, j + 1, a)
        }
    }
}

/// `\[...\]` written as `$$...$$`.
pub open spec fn math_text(m: Seq<char>) -> Seq<char> {
    "$$"@ + text::trim(trim_end_matches(trim_start_matches(m, "\\["@), "\\]"@)) + "$$\n"@
}

/// A heading, display math or content line `t` at index `i`: the new state and the
/// index of the last line it used.
pub open spec fn sections(t: Seq<char>, ls: Seq<Seq<char>>, i: nat, st: PState) -> (PState, nat) {
    match heading_match(t, 0) {
        Some(k) => {
            let (cmd, prefix) = heading_cmds()[k as int];
            match spec_extract_heading_title(t, cmd) {
                Some(title) => (emit(st, prefix + spec_process_line(title) + "\n\n"@), i),
                None => (st, i),
            }
        },
        None => if text::starts_with(t, "\\["@) {
            if text::contains(t, "\\]"@) {
                (emit(st, math_text(t)), i)
            } else {
                let (m, j) = math_collect(ls, i + 1, t);
                (emit(st, math_text(m)), j)
            }
        } else if t.len() > 0 && !text::starts_with(t, "%"@) {
            let p = spec_process_line(t);
            if p.len() > 0 {
                (emit(st, p + "\n"@), i)
            } else {
                (st, i)
            }
        } else {
            (st, i)
        },
    }
}

// ---------------------------------------------------------------------------
// Environments
// ---------------------------------------------------------------------------

/// The math environments, kept as `$$\begin{..}..\end{..}$$`.
pub open spec fn is_math_env(e: Seq<char>) -> bool {
    e == "equation"@ || e == "equation*"@ || e == "align"@ || e == "align*"@ || e == "gather"@
        || e == "gather*"@ || e == "multline"@ || e == "multline*"@ || e == "eqnarray"@ || e
        == "eqnarray*"@ || e == "math"@ || e == "displaymath"@ || e == "flalign"@ || e
        == "flalign*"@ || e == "cases"@
}

/// Lines of other environments that carry no text.
pub open spec fn env_line_skipped(tl: Seq<char>) -> bool {
    tl.len() == 0 || text::starts_with(tl, "%"@) || text::contains(tl, "\\begin{"@)
        || text::contains(tl, "\\begin {"@) || text::contains(tl, "\\end{"@) || text::contains(
        tl,
        "\\end {"@,
    )
}

/// The text of one line of another environment: a caption's processed text, or the
/// processed line, each on a line of its own.
pub open spec fn env_line_text(tl: Seq<char>) -> Seq<char> {
    if env_line_skipped(tl) {
        seq![]
    } else if text::contains(tl, "\\caption{"@) {
        match spec_extract_braced(tl, "caption"@) {
            Some(c) => spec_process_line(c) + "\n"@,
            None => seq![],
        }
    } else {
        let p = spec_process_line(tl);
        if p.len() > 0 {
            p + "\n"@
        } else {
            seq![]
        }
    }
}

/// The text of all lines of another environment.
pub open spec fn env_text(ls: Seq<Seq<char>>) -> Seq<char>
    decreases ls.len(),
{
    if ls.len() == 0 {
        seq![]
    } else {
        env_text(ls.drop_last()) + env_line_text(text::trim(ls.last()))
    }
}

/// A tabular body added as a table.
pub open spec fn table_effect(c: Seq<char>, st: PState) -> PState {
    let rows = table_rows(text::lines(c));
    if rows.len() == 0 {
        st
    } else {
        PState {
            out: st.out + table_md(rows),
            tables: st.tables.push(TableView { cells: rows, markdown: table_md(rows), page_number: 1 }),
            ..st
        }
    }
}

/// A table environment added: its caption, then its tabular. A body whose
/// `\end{tabular}` ends before its `\begin{tabular}` starts is left out.
pub open spec fn table_env_effect(c: Seq<char>, st: PState) -> PState {
    if tabular_in_order(c) {
        let cap = if text::contains(c, "\\caption{"@) {
            match spec_extract_braced(c, "caption"@) {
                Some(x) => x + "\n"@,
                None => seq![],
            }
        } else {
            seq![]
        };
        let st1 = emit(st, cap);
        match tabular_part(c) {
            None => st1,
            Some(tab) => table_effect(tab, st1),
        }
    } else {
        st
    }
}

/// What the environment `e` opened on line `i` contributes.
pub open spec fn env_effect(e: Seq<char>, c: Seq<char>, st: PState) -> PState {
    if is_list_env(e) {
        emit(st, spec_process_list(c, e))
    } else if e == "tabular"@ {
        table_effect(c, st)
    } else if e == "table"@ {
        table_env_effect(c, st)
    } else if is_math_env(e) {
        emit(st, "$$\\begin{"@ + e + "}\n"@ + c + "\\end{"@ + e + "}$$\n\n"@)
    } else {
        emit(st, env_text(text::lines(c)))
    }
}

/// An environment starting at line `i`: the new state and the next line to read;
/// `None` when the line opens no environment.
pub open spec fn environments(ls: Seq<Seq<char>>, t: Seq<char>, i: nat, st: PState) -> Option<
    (PState, nat),
> {
    if !(text::contains(t, "\\begin{"@) || text::contains(t, "\\begin {"@)) {
        None
    } else {
        match spec_extract_env_name(t) {
            None => None,
            Some(e) => {
                let (c, ni) = spec_collect_environment(ls, i, e);
                let next = if i < ni && ni <= ls.len() {
                    ni
                } else {
                    i + 1
                };
                Some((env_effect(e, c, st), next))
            },
        }
    }
}

// ---------------------------------------------------------------------------
// The document
// ---------------------------------------------------------------------------

/// A document on one line, `\begin{document}` and `\end{document}` both on it: the
/// text between them handled as one content line. When the end marker comes first
/// nothing is added.
pub open spec fn single_line(t: Seq<char>, st: PState) -> PState {
    let b = "\\begin{document}"@;
    match (text::find(t, b), text::find(t, "\\end{document}"@)) {
        (Some(bp), Some(ep)) => if bp + b.len() <= ep {
            let between = text::trim(t.subrange(bp as int + b.len() as int, ep as int));
            if between.len() > 0 {
                sections(between, seq![between], 0, st).0
            } else {
                st
            }
        } else {
            st
        },
        _ => st,
    }
}

/// Parsing from line `i` on.
pub open spec fn parse_from(ls: Seq<Seq<char>>, i: nat, in_doc: bool, plain: bool, st: PState) -> PState
    decreases ls.len() + 1 - i,
{
    if i >= ls.len() {
        st
    } else {
        let t = text::trim(ls[i as int]);
        if plain && text::contains(t, "\\bye"@) {
            st
        } else {
            let st1 = if !in_doc && !plain {
                PState { meta: spec_metadata_from_line(t, st.meta), ..st }
            } else {
                st
            };
            if !plain && text::contains(t, "\\begin{document}"@) {
                if text::contains(t, "\\end{document}"@) {
                    single_line(t, st1)
                } else {
                    parse_from(ls, i + 1, true, plain, st1)
                }
            } else if !plain && text::contains(t, "\\end{document}"@) {
                st1
            } else if in_doc {
                match environments(ls, t, i, st1) {
                    Some((st2, ni)) => parse_from(ls, ni, in_doc, plain, st2),
                    None => {
                        let (st3, j) = sections(t, ls, i, st1);
                        if i <= j <= ls.len() {
                            parse_from(ls, j + 1, in_doc, plain, st3)
                        } else {
                            st3
                        }
                    },
                }
            } else {
                parse_from(ls, i + 1, in_doc, plain, st1)
            }
        }
    }
}

/// Plain TeX: `\bye` present and no `\begin{document}`.
pub open spec fn is_plain_tex(src: Seq<char>) -> bool {
    text::contains(src, "\\bye"@) && !text::contains(src, "\\begin{document}"@)
}

/// The parse of a whole document: trimmed text, metadata and tables.
pub open spec fn spec_parse(src: Seq<char>) -> PState {
    spec_parse_onto(src, PState { out: seq![], meta: empty_metadata(), tables: seq![] })
}

/// The parse of `src` by a parser that has already gathered `st0`.
pub open spec fn spec_parse_onto(src: Seq<char>, st0: PState) -> PState {
    let plain = is_plain_tex(src);
    let st = parse_from(text::lines(src), 0, plain, plain, st0);
    PState { out: text::trim(st.out), ..st }
}

/// LaTeX parser state: the source, and the metadata, tables and text gathered.
pub struct LatexParser<'a> {
    source: &'a str,
    metadata: Metadata,
    tables: Vec<Table>,
    output: Vec<char>,
}

impl<'a> LatexParser<'a> {
    /// What the parser has gathered.
    pub closed spec fn state(&self) -> PState {
        PState { out: self.output@, meta: self.metadata@, tables: tables_view(self.tables@) }
    }

    /// The source being parsed.
    pub closed spec fn source(&self) -> Seq<char> {
        self.source@
    }

    /// A parser for `source` with nothing gathered yet.
    pub fn new(source: &'a str) -> (p: Self)
        ensures
            p.source() == source@,
            p.state() == (PState { out: seq![], meta: empty_metadata(), tables: seq![] }),
    {
        let p = LatexParser { source, metadata: Metadata::new(), tables: Vec::new(), output: Vec::new() };
        assert(tables_view(p.tables@) =~= Seq::<TableView>::empty());
        p
    }

    /// Handles a heading, display math or content line.
    fn process_sections_and_content(&mut self, t: &[char], lines: &[Vec<char>], i: usize) -> (r: usize)
        requires
            i < lines@.len(),
        ensures
            sections(t@, text::views(lines@), i as nat, old(self).state()) == (final(self).state(), r as nat),
            i <= r <= lines@.len(),
            final(self).source() == old(self).source(),
    {
        let ghost st = self.state();
        let ghost ls = text::views(lines@);
        assert(lines@.len() == lines.len());
        let mut k: usize = 0;
        let names: [&str; 10] = ["chapter*", "chapter", "section*", "section", "subsection*",
            "subsection", "subsubsection*", "subsubsection", "paragraph*", "paragraph"];
        let prefixes: [&str; 10] = ["\n# ", "\n# ", "\n# ", "\n# ", "## ", "## ", "### ", "### ",
            "#### ", "#### "];
        assert(forall|j: int| 0 <= j < 10 ==> names@[j]@ == #[trigger] heading_cmds()[j].0
            && prefixes@[j]@ == heading_cmds()[j].1);
        while k < 10
            invariant
                k <= 10,
                i < lines@.len(),
                ls == text::views(lines@),
                st == old(self).state(),
                heading_match(t@, 0) == heading_match(t@, k as nat),
                forall|j: int| 0 <= j < 10 ==> names@[j]@ == #[trigger] heading_cmds()[j].0
                    && prefixes@[j]@ == heading_cmds()[j].1,
                self.state() == st,
                self.source() == old(self).source(),
            decreases 10 - k,
        {
            let cmd = str_chars(names[k]);
            let mut cp: Vec<char> = Vec::new();
            cp.push('\\');
            push_all(&mut cp, cmd.as_slice());
            assert(cp@ =~= seq!['\\'] + heading_cmds()[k as int].0);
            if starts_with_exec(t, cp.as_slice()) && t.len() > cp.len() && (t[cp.len()] == '{'
                || t[cp.len()] == '[') {
                assert(heading_match(t@, k as nat) == Some(k as nat));
                if let Some(title) = extract_heading_title(t, cmd.as_slice()) {
                    let pt = process_line(title.as_slice());
                    let ghost before = self.output@;
                    push_str(&mut self.output, prefixes[k]);
                    push_all(&mut self.output, pt.as_slice());
                    push_str(&mut self.output, "\n\n");
                    assert(self.output@ =~= before + (prefixes@[k as int]@ + pt@ + "\n\n"@));
                }
                return i;
            }
            k = k + 1;
        }
        assert(heading_match(t@, 0) is None);
        if starts_with_str(t, "\\[") {
            if contains_str(t, "\\]") {
                self.push_math(t);
                return i;
            } else {
                let mut m: Vec<char> = Vec::new();
                push_all(&mut m, t);
                let mut j = i + 1;
                assert(m@ =~= t@);
                while j < lines.len()
                    invariant
                        i < j <= lines@.len(),
                        ls == text::views(lines@),
                        math_collect(ls, (i + 1) as nat, t@) == math_collect(ls, j as nat, m@),
                        self.state() == st,
                        st == old(self).state(),
                        self.source() == old(self).source(),
                        heading_match(t@, 0) is None,
                        text::starts_with(t@, "\\["@),
                        !text::contains(t@, "\\]"@),
                    decreases lines@.len() - j,
                {
                    let ghost old_m = m@;
                    m.push('\n');
                    push_all(&mut m, lines[j].as_slice());
                    let lt = trim_vec(lines[j].as_slice());
                    assert(m@ =~= old_m + "\n"@ + ls[j as int]) by {
                        reveal_strlit("\n");
                    }
                    if contains_str(lt.as_slice(), "\\]") {
                        self.push_math(m.as_slice());
                        return j;
                    }
                    j = j + 1;
                }
                self.push_math(m.as_slice());
                return j;
            }
        } else if t.len() > 0 && !starts_with_str(t, "%") {
            let p = process_line(t);
            if p.len() > 0 {
                let ghost before = self.output@;
                push_all(&mut self.output, p.as_slice());
                push_str(&mut self.output, "\n");
                assert(self.output@ =~= before + (p@ + "\n"@));
            }
        }
        i
    }

    /// Appends `\[m\]` as `$$m$$`.
    fn push_math(&mut self, m: &[char])
        ensures
            final(self).state() == emit(old(self).state(), math_text(m@)),
            final(self).source() == old(self).source(),
    {
        let open = str_chars("\\[");
        let close = str_chars("\\]");
        let a = trim_start_matches_exec(m, open.as_slice());
        let b = trim_end_matches_exec(a.as_slice(), close.as_slice());
        let c = trim_vec(b.as_slice());
        let ghost before = self.output@;
        push_str(&mut self.output, "$$");
        push_all(&mut self.output, c.as_slice());
        push_str(&mut self.output, "$$\n");
        assert(self.output@ =~= before + math_text(m@));
    }

    /// Appends the text of the lines of an environment that is neither a list, a
    /// table nor math.
    fn push_env_text(&mut self, c: &[char])
        ensures
            final(self).state() == emit(old(self).state(), env_text(text::lines(c@))),
            final(self).source() == old(self).source(),
    {
        let ls = lines_exec(c);
        let ghost lv = text::views(ls@);
        let ghost st = self.state();
        let mut k: usize = 0;
        assert(lv.take(0) =~= Seq::<Seq<char>>::empty());
        assert(self.output@ =~= st.out + env_text(lv.take(0)));
        while k < ls.len()
            invariant
                k <= ls@.len(),
                lv == text::views(ls@),
                st == old(self).state(),
                self.output@ == st.out + env_text(lv.take(k as int)),
                self.metadata@ == st.meta,
                tables_view(self.tables@) == st.tables,
                self.source() == old(self).source(),
            decreases ls@.len() - k,
        {
            let tl = trim_vec(ls[k].as_slice());
            let ghost before = self.output@;
            proof {
                assert(lv.take(k + 1).drop_last() =~= lv.take(k as int));
                assert(lv.take(k + 1).last() == ls@[k as int]@);
            }
            let skipped = tl.len() == 0 || starts_with_str(tl.as_slice(), "%") || contains_str(
                tl.as_slice(),
                "\\begin{",
            ) || contains_str(tl.as_slice(), "\\begin {") || contains_str(tl.as_slice(), "\\end{")
                || contains_str(tl.as_slice(), "\\end {");
            if !skipped {
                if contains_str(tl.as_slice(), "\\caption{") {
                    let name = str_chars("caption");
                    if let Some(cap) = extract_braced(tl.as_slice(), name.as_slice()) {
                        let pc = process_line(cap.as_slice());
                        push_all(&mut self.output, pc.as_slice());
                        push_str(&mut self.output, "\n");
                    }
                } else {
                    let pl = process_line(tl.as_slice());
                    if pl.len() > 0 {
                        push_all(&mut self.output, pl.as_slice());
                        push_str(&mut self.output, "\n");
                    }
                }
            }
            assert(self.output@ =~= before + env_line_text(tl@));
            k = k + 1;
        }
        assert(lv.take(ls@.len() as int) =~= lv);
    }

    /// Whether a table body's tabular can be cut out.
    fn tabular_in_order_exec(c: &[char]) -> (r: bool)
        ensures
            r == tabular_in_order(c@),
    {
        match (find_str(c, "\\begin{tabular}"), find_str(c, "\\end{tabular}")) {
            (Some(s), Some(e)) => {
                let endpat = str_chars("\\end{tabular}");
                proof {
                    text::lemma_find_from(c@, "\\end{tabular}"@, 0);
                    assert(e + endpat@.len() <= c@.len() == c.len());
                }
                s <= e + endpat.len()
            },
            _ => true,
        }
    }

    /// Handles an environment opened on line `i`; `None` when the line opens none.
    fn process_environments(&mut self, lines: &[Vec<char>], t: &[char], i: usize) -> (r: Option<usize>)
        requires
            i < lines@.len(),
        ensures
            environments(text::views(lines@), t@, i as nat, old(self).state()) matches Some(
                (st2, ni),
            ) ==> r == Some(ni as usize) && final(self).state() == st2,
            environments(text::views(lines@), t@, i as nat, old(self).state()) is None ==> r is None
                && final(self).state() == old(self).state(),
            final(self).source() == old(self).source(),
    {
        if !(contains_str(t, "\\begin{") || contains_str(t, "\\begin {")) {
            return None;
        }
        let e = match extract_env_name(t) {
            None => return None,
            Some(e) => e,
        };
        let (c, ni) = collect_environment(lines, i, e.as_slice());
        let ghost st = self.state();
        let es = e.as_slice();
        if eq_str(es, "itemize") || eq_str(es, "enumerate") || eq_str(es, "description") {
            process_list(c.as_slice(), es, &mut self.output);
        } else if eq_str(es, "tabular") {
            process_table(c.as_slice(), &mut self.output, &mut self.tables);
        } else if eq_str(es, "table") {
            if Self::tabular_in_order_exec(c.as_slice()) {
                process_table_with_caption(c.as_slice(), &mut self.output, &mut self.tables);
            }
        } else if eq_str(es, "equation") || eq_str(es, "equation*") || eq_str(es, "align")
            || eq_str(es, "align*") || eq_str(es, "gather") || eq_str(es, "gather*") || eq_str(
            es,
            "multline",
        ) || eq_str(es, "multline*") || eq_str(es, "eqnarray") || eq_str(es, "eqnarray*")
            || eq_str(es, "math") || eq_str(es, "displaymath") || eq_str(es, "flalign") || eq_str(
            es,
            "flalign*",
        ) || eq_str(es, "cases") {
            let ghost before = self.output@;
            push_str(&mut self.output, "$$\\begin{");
            push_all(&mut self.output, es);
            push_str(&mut self.output, "}\n");
            push_all(&mut self.output, c.as_slice());
            push_str(&mut self.output, "\\end{");
            push_all(&mut self.output, es);
            push_str(&mut self.output, "}$$\n\n");
            assert(self.output@ =~= before + ("$$\\begin{"@ + e@ + "}\n"@ + c@ + "\\end{"@ + e@
                + "}$$\n\n"@));
        } else {
            self.push_env_text(c.as_slice());
        }
        assert(self.state() == env_effect(e@, c@, st));
        let next = if i < ni && ni <= lines.len() {
            ni
        } else {
            i + 1
        };
        Some(next)
    }

    /// Handles a document written on one line.
    fn process_single_line_document(&mut self, t: &[char])
        ensures
            final(self).state() == single_line(t@, old(self).state()),
            final(self).source() == old(self).source(),
    {
        let bp = match find_str(t, "\\begin{document}") {
            None => return,
            Some(k) => k,
        };
        let ep = match find_str(t, "\\end{document}") {
            None => return,
            Some(k) => k,
        };
        let b = str_chars("\\begin{document}");
        proof {
            text::lemma_find_from(t@, "\\begin{document}"@, 0);
            assert(bp + b@.len() <= t@.len() == t.len());
        }
        if bp + b.len() <= ep {
            proof {
                text::lemma_find_from(t@, "\\end{document}"@, 0);
            }
            let mid = slice_vec(t, bp + b.len(), ep);
            let between = trim_vec(mid.as_slice());
            if between.len() > 0 {
                let mut ls: Vec<Vec<char>> = Vec::new();
                let bcopy = slice_vec(between.as_slice(), 0, between.len());
                ls.push(bcopy);
                assert(ls@.len() == 1);
                assert(ls@[0]@ == between@);
                assert(text::views(ls@) =~= seq![between@]);
                let _ = self.process_sections_and_content(between.as_slice(), ls.as_slice(), 0);
            }
        }
    }

    /// One parser step at line `i`: `None` when parsing stops, otherwise the next
    /// line and whether the document body has begun.
    fn step(&mut self, lines: &[Vec<char>], i: usize, in_doc: bool, plain: bool) -> (r: Option<(usize, bool)>)
        requires
            i < lines@.len(),
        ensures
            r is None ==> parse_from(text::views(lines@), i as nat, in_doc, plain, old(self).state())
                == final(self).state(),
            r matches Some((ni, d)) ==> parse_from(text::views(lines@), i as nat, in_doc, plain, old(self).state())
                == parse_from(text::views(lines@), ni as nat, d, plain, final(self).state())
                && i < ni <= lines@.len() + 1,
            final(self).source() == old(self).source(),
    {
        let ghost ls = text::views(lines@);
        let t = trim_vec(lines[i].as_slice());
        assert(t@ == text::trim(ls[i as int]));
        if plain && contains_str(t.as_slice(), "\\bye") {
            return None;
        }
        if !in_doc && !plain {
            extract_metadata_from_line(t.as_slice(), &mut self.metadata);
        }
        if !plain && contains_str(t.as_slice(), "\\begin{document}") {
            if contains_str(t.as_slice(), "\\end{document}") {
                self.process_single_line_document(t.as_slice());
                return None;
            }
            return Some((i + 1, true));
        }
        if !plain && contains_str(t.as_slice(), "\\end{document}") {
            return None;
        }
        if in_doc {
            match self.process_environments(lines, t.as_slice(), i) {
                Some(ni) => {
                    return Some((ni, in_doc));
                },
                None => {},
            }
            let j = self.process_sections_and_content(t.as_slice(), lines, i);
            if j >= lines.len() {
                assert(parse_from(ls, (j + 1) as nat, in_doc, plain, self.state()) == self.state());
                return None;
            }
            Some((j + 1, in_doc))
        } else {
            Some((i + 1, in_doc))
        }
    }

    /// Parses the document: its trimmed text, its metadata and its tables.
    pub fn parse(&mut self) -> (r: (String, Metadata, Vec<Table>))
        ensures
            r.0@ == spec_parse_onto(old(self).source(), old(self).state()).out,
            r.1@ == spec_parse_onto(old(self).source(), old(self).state()).meta,
            tables_view(r.2@) == spec_parse_onto(old(self).source(), old(self).state()).tables,
    {
        let src = str_chars(self.source);
        let lines = lines_exec(src.as_slice());
        let ghost ls = text::views(lines@);
        let plain = contains_str(src.as_slice(), "\\bye") && !contains_str(
            src.as_slice(),
            "\\begin{document}",
        );
        let mut in_doc = plain;
        let mut i: usize = 0;
        let ghost src_view = self.source();
        let ghost init = self.state();
        while i < lines.len()
            invariant_except_break
                i <= lines@.len() + 1,
                parse_from(ls, 0, plain, plain, init) == parse_from(ls, i as nat, in_doc, plain, self.state()),
            invariant
                ls == text::views(lines@),
                ls == text::lines(src_view),
                plain == is_plain_tex(src_view),
                self.source() == src_view,
            ensures
                parse_from(ls, 0, plain, plain, init) == self.state(),
            decreases lines@.len() + 1 - i,
        {
            match self.step(lines.as_slice(), i, in_doc, plain) {
                None => break,
                Some((ni, d)) => {
                    i = ni;
                    in_doc = d;
                },
            }
        }
        let out = trim_vec(self.output.as_slice());
        let content = chars_string(out.as_slice());
        let mut md = Metadata::new();
        std::mem::swap(&mut md, &mut self.metadata);
        let mut tables: Vec<Table> = Vec::new();
        std::mem::swap(&mut tables, &mut self.tables);
        (content, md, tables)
    }
}

} // verus!
