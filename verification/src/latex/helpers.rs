//! Pieces of a LaTeX line: image paths, captions, labels, code languages,
//! tabular cells and commands that carry no text.

use vstd::prelude::*;
use crate::text;
use crate::text::{
    chars_string, contains_str, find_char_from, find_str, is_alphabetic, lines_exec, replace_str,
    slice_vec, split_char_exec, str_chars, trim_vec,
};
use crate::types::{Metadata, Table, rows_view, strs, tables_view};
use super::LatexExtractor;
use super::commands::{alpha_end, eq_str};
use super::inline::{read_braced_chars, spec_read_braced_content, lemma_read_braced_content};
use super::parser::{LatexParser, spec_parse};

verus! {

/// The path in `\includegraphics[opts]{path}` or `\includegraphics{path}`, trimmed;
/// `None` when it is missing or empty.
pub open spec fn spec_includegraphics_path(line: Seq<char>) -> Option<Seq<char>> {
    let p = "\\includegraphics"@;
    match text::find(line, p) {
        None => None,
        Some(st) => {
            let a = st + p.len();
            let rest = if a < line.len() && line[a as int] == '[' {
                match text::find_char(line.skip(a as int), ']') {
                    None => None,
                    Some(be) => Some(a + be + 1),
                }
            } else {
                Some(a)
            };
            match rest {
                None => None,
                Some(r) => if r < line.len() && line[r as int] == '{' {
                    match text::find_char(line.skip(r as int + 1), '}') {
                        None => None,
                        Some(e) => {
                            let path = text::trim(line.subrange(r as int + 1, r as int + 1 + e as int));
                            if path.len() == 0 {
                                None
                            } else {
                                Some(path)
                            }
                        },
                    }
                } else {
                    None
                },
            }
        },
    }
}

/// The braced argument of the first `prefix` (which ends with `{`) in `content`.
pub open spec fn spec_braced_after(content: Seq<char>, prefix: Seq<char>) -> Option<Seq<char>> {
    match text::find(content, prefix) {
        None => None,
        Some(st) => match spec_read_braced_content(content.skip(st as int + prefix.len() as int)) {
            Some((t, n)) => Some(t),
            None => None,
        },
    }
}

/// The commands whose lines carry no text.
pub open spec fn skip_commands() -> Seq<Seq<char>> {
    seq![
        "maketitle"@, "tableofcontents"@, "listoffigures"@, "listoftables"@, "setcounter"@,
        "addtocounter"@, "newpage"@, "clearpage"@, "cleardoublepage"@, "pagestyle"@,
        "thispagestyle"@, "pagenumbering"@, "setlength"@, "addtolength"@, "newcommand"@,
        "renewcommand"@, "def"@, "let"@, "input"@, "include"@, "bibliography"@,
        "bibliographystyle"@, "graphicspath"@, "geometry"@, "hypersetup"@, "usepackage"@,
        "documentclass"@, "doublespacing"@, "singlespacing"@, "onehalfspacing"@,
        "VerbatimFootnotes"@,
    ]
}

/// A line starting with a command that carries no text.
pub open spec fn spec_is_skip_command(t: Seq<char>) -> bool {
    t.len() > 0 && t[0] == '\\' && skip_commands().contains(t.subrange(1, alpha_end(t, 1) as int))
}

/// The trimmed non-empty parts.
pub open spec fn nonempty_trimmed(parts: Seq<Seq<char>>) -> Seq<Seq<char>>
    decreases parts.len(),
{
    if parts.len() == 0 {
        seq![]
    } else {
        let r = nonempty_trimmed(parts.drop_last());
        let c = text::trim(parts.last());
        if c.len() > 0 {
            r.push(c)
        } else {
            r
        }
    }
}

/// Tabular lines that hold no row.
pub open spec fn tabular_line_skipped(t: Seq<char>) -> bool {
    text::starts_with(t, "\\hline"@) || t.len() == 0 || text::contains(t, "\\begin{tabular}"@)
        || text::contains(t, "\\end{tabular}"@)
}

/// The rows of tabular lines: `\\` and `\hline` removed, split at `&`, cells trimmed,
/// empty cells and rows dropped.
pub open spec fn tabular_cells(ls: Seq<Seq<char>>) -> Seq<Seq<Seq<char>>>
    decreases ls.len(),
{
    if ls.len() == 0 {
        seq![]
    } else {
        let r = tabular_cells(ls.drop_last());
        let t = text::trim(ls.last());
        if tabular_line_skipped(t) {
            r
        } else {
            let c = nonempty_trimmed(
                text::split_char(text::replace(text::replace(t, "\\\\"@, ""@), "\\hline"@, ""@), '&'),
            );
            if c.len() > 0 {
                r.push(c)
            } else {
                r
            }
        }
    }
}

/// The first position in `s` holding one of `set`.
pub open spec fn find_any(s: Seq<char>, set: Seq<char>, i: nat) -> nat
    decreases s.len() - i,
{
    if i >= s.len() || set.contains(s[i as int]) {
        i
    } else {
        find_any(s, set, i + 1)
    }
}

/// The last position of `c` in `s[..i]`.
pub open spec fn rfind_char(s: Seq<char>, c: char, i: nat) -> Option<nat>
    decreases i,
{
    if i == 0 || i > s.len() {
        None
    } else if s[i - 1] == c {
        Some((i - 1) as nat)
    } else {
        rfind_char(s, c, (i - 1) as nat)
    }
}

/// The language of a code environment: from `language=..` up to `,`, `]` or `}`;
/// failing that, for `minted`, the last braced argument unless it is `minted`.
pub open spec fn spec_code_language(l: Seq<char>) -> Option<Seq<char>> {
    let from_option = match text::find(l, "language="@) {
        Some(lp) => {
            let after = l.skip(lp as int + "language="@.len() as int);
            let lang = text::trim(after.take(find_any(after, seq![',', ']', '}'], 0) as int));
            if lang.len() > 0 {
                Some(lang)
            } else {
                None
            }
        },
        None => None,
    };
    if from_option is Some {
        from_option
    } else if text::contains(l, "minted"@) {
        match rfind_char(l, '{', l.len()) {
            Some(bs) => {
                let after = l.skip(bs as int + 1);
                match text::find_char(after, '}') {
                    Some(be) => {
                        let lang = text::trim(after.take(be as int));
                        if lang.len() > 0 && lang != "minted"@ {
                            Some(lang)
                        } else {
                            None
                        }
                    },
                    None => None,
                }
            },
            None => None,
        }
    } else {
        None
    }
}

impl LatexExtractor {
    /// Parses LaTeX content: its text, metadata and tables.
    pub fn extract_from_latex(content: &str) -> (r: (String, Metadata, Vec<Table>))
        ensures
            r.0@ == spec_parse(content@).out,
            r.1@ == spec_parse(content@).meta,
            tables_view(r.2@) == spec_parse(content@).tables,
    {
        let mut parser = LatexParser::new(content);
        parser.parse()
    }

    /// Reads braced content after an already consumed `{`: the content and the
    /// number of bytes used including the closing brace.
    pub fn read_braced_content(input: &str) -> (r: Option<(String, usize)>)
        ensures
            spec_read_braced_content(input@) matches Some((c, n)) ==> (text::utf8_len(
                input@.take(n as int),
            ) <= usize::MAX ==> (r matches Some((rc, rn)) && rc@ == c && rn == text::utf8_len(
                input@.take(n as int),
            ))),
            spec_read_braced_content(input@) is None ==> r is None,
    {
        let s = str_chars(input);
        proof {
            lemma_read_braced_content(s@);
        }
        match read_braced_chars(s.as_slice()) {
            Some((c, n)) => {
                let used = slice_vec(s.as_slice(), 0, n);
                let bytes = text::utf8_len_exec(used.as_slice());
                proof {
                    text::lemma_utf8_len_bound(used@);
                }
                if bytes > usize::MAX as u128 {
                    // A text of this many bytes cannot be held in memory.
                    return None;
                }
                Some((chars_string(c.as_slice()), bytes as usize))
            },
            None => None,
        }
    }

    /// The path of `\includegraphics[opts]{path}` or `\includegraphics{path}`.
    pub fn extract_includegraphics_path(line: &str) -> (r: Option<String>)
        ensures
            match spec_includegraphics_path(line@) {
                Some(p) => r matches Some(x) && x@ == p,
                None => r is None,
            },
    {
        let l = str_chars(line);
        let ls = l.as_slice();
        let st = match find_str(ls, "\\includegraphics") {
            None => return None,
            Some(k) => k,
        };
        let p = str_chars("\\includegraphics");
        proof {
            text::lemma_find_from(l@, "\\includegraphics"@, 0);
            assert(st + p@.len() <= l@.len() == l.len());
        }
        let a = st + p.len();
        let r = if a < ls.len() && ls[a] == '[' {
            match find_char_from(ls, ']', a) {
                None => return None,
                Some(be) => be + 1,
            }
        } else {
            a
        };
        if !(r < ls.len() && ls[r] == '{') {
            return None;
        }
        match find_char_from(ls, '}', r + 1) {
            None => None,
            Some(e) => {
                let raw = slice_vec(ls, r + 1, e);
                let path = trim_vec(raw.as_slice());
                assert(raw@ =~= l@.subrange(r as int + 1, r as int + 1 + (e - r - 1) as int));
                if path.len() == 0 {
                    None
                } else {
                    Some(chars_string(path.as_slice()))
                }
            },
        }
    }

    /// The braced argument after the first `prefix` in `content`.
    fn braced_after_prefix(content: &str, prefix: &str) -> (r: Option<String>)
        ensures
            match spec_braced_after(content@, prefix@) {
                Some(t) => r matches Some(x) && x@ == t,
                None => r is None,
            },
    {
        let c = str_chars(content);
        let st = match find_str(c.as_slice(), prefix) {
            None => return None,
            Some(k) => k,
        };
        let p = str_chars(prefix);
        proof {
            text::lemma_find_from(c@, prefix@, 0);
            assert(st + p@.len() <= c@.len() == c.len());
        }
        let rest = slice_vec(c.as_slice(), st + p.len(), c.len());
        assert(rest@ =~= c@.skip(st as int + prefix@.len() as int));
        match read_braced_chars(rest.as_slice()) {
            Some((t, _n)) => Some(chars_string(t.as_slice())),
            None => None,
        }
    }

    /// The text of `\caption{text}`.
    pub fn extract_caption(content: &str) -> (r: Option<String>)
        ensures
            match spec_braced_after(content@, "\\caption{"@) {
                Some(t) => r matches Some(x) && x@ == t,
                None => r is None,
            },
    {
        Self::braced_after_prefix(content, "\\caption{")
    }

    /// The key of `\label{key}`.
    pub fn extract_label(content: &str) -> (r: Option<String>)
        ensures
            match spec_braced_after(content@, "\\label{"@) {
                Some(t) => r matches Some(x) && x@ == t,
                None => r is None,
            },
    {
        Self::braced_after_prefix(content, "\\label{")
    }

    /// Whether a line starts with a command that carries no text.
    pub fn is_skip_command(trimmed: &str) -> (r: bool)
        ensures
            r == spec_is_skip_command(trimmed@),
    {
        let t = str_chars(trimmed);
        if t.len() == 0 || t[0] != '\\' {
            return false;
        }
        let mut e: usize = 1;
        while e < t.len() && is_alphabetic(t[e])
            invariant
                1 <= e <= t@.len(),
                alpha_end(t@, 1) == alpha_end(t@, e as nat),
            decreases t@.len() - e,
        {
            e = e + 1;
        }
        assert(alpha_end(t@, e as nat) == e);
        let cmd = slice_vec(t.as_slice(), 1, e);
        let names: [&str; 31] = ["maketitle", "tableofcontents", "listoffigures", "listoftables",
            "setcounter", "addtocounter", "newpage", "clearpage", "cleardoublepage", "pagestyle",
            "thispagestyle", "pagenumbering", "setlength", "addtolength", "newcommand",
            "renewcommand", "def", "let", "input", "include", "bibliography", "bibliographystyle",
            "graphicspath", "geometry", "hypersetup", "usepackage", "documentclass",
            "doublespacing", "singlespacing", "onehalfspacing", "VerbatimFootnotes"];
        assert(forall|j: int| 0 <= j < 31 ==> names@[j]@ == #[trigger] skip_commands()[j]);
        assert(cmd@ =~= trimmed@.subrange(1, alpha_end(trimmed@, 1) as int));
        let mut k: usize = 0;
        while k < 31
            invariant
                k <= 31,
                spec_is_skip_command(trimmed@) == skip_commands().contains(cmd@),
                forall|j: int| 0 <= j < 31 ==> names@[j]@ == #[trigger] skip_commands()[j],
                forall|j: int| 0 <= j < k ==> skip_commands()[j] != cmd@,
            decreases 31 - k,
        {
            if eq_str(cmd.as_slice(), names[k]) {
                assert(skip_commands()[k as int] == cmd@);
                assert(skip_commands().contains(cmd@));
                return true;
            }
            k = k + 1;
        }
        assert(!skip_commands().contains(cmd@));
        false
    }

    /// Rows of trimmed non-empty cells from a tabular body.
    pub fn parse_tabular_cells(content: &str) -> (r: Vec<Vec<String>>)
        ensures
            rows_view(r@) == tabular_cells(text::lines(content@)),
    {
        let c = str_chars(content);
        let ls = lines_exec(c.as_slice());
        let ghost lv = text::views(ls@);
        let mut rows: Vec<Vec<String>> = Vec::new();
        let mut k: usize = 0;
        assert(lv.take(0) =~= Seq::<Seq<char>>::empty());
        assert(rows_view(rows@) =~= Seq::<Seq<Seq<char>>>::empty());
        while k < ls.len()
            invariant
                k <= ls@.len(),
                lv == text::views(ls@),
                rows_view(rows@) == tabular_cells(lv.take(k as int)),
            decreases ls@.len() - k,
        {
            let t = trim_vec(ls[k].as_slice());
            proof {
                assert(lv.take(k + 1).drop_last() =~= lv.take(k as int));
                assert(lv.take(k + 1).last() == ls@[k as int]@);
            }
            if !(text::starts_with_str(t.as_slice(), "\\hline") || t.len() == 0 || contains_str(
                t.as_slice(),
                "\\begin{tabular}",
            ) || contains_str(t.as_slice(), "\\end{tabular}")) {
                let a = replace_str(t.as_slice(), "\\\\", "");
                let b = replace_str(a.as_slice(), "\\hline", "");
                let parts = split_char_exec(b.as_slice(), '&');
                let ghost ps = text::views(parts@);
                let mut cells: Vec<String> = Vec::new();
                let mut j: usize = 0;
                assert(ps.take(0) =~= Seq::<Seq<char>>::empty());
                assert(strs(cells@) =~= Seq::<Seq<char>>::empty());
                while j < parts.len()
                    invariant
                        j <= parts@.len(),
                        ps == text::views(parts@),
                        strs(cells@) == nonempty_trimmed(ps.take(j as int)),
                    decreases parts@.len() - j,
                {
                    let cl = trim_vec(parts[j].as_slice());
                    proof {
                        assert(ps.take(j + 1).drop_last() =~= ps.take(j as int));
                        assert(ps.take(j + 1).last() == parts@[j as int]@);
                    }
                    if cl.len() > 0 {
                        let ghost before = cells@;
                        cells.push(chars_string(cl.as_slice()));
                        assert(strs(cells@) =~= strs(before).push(cl@));
                    }
                    j = j + 1;
                }
                assert(ps.take(parts@.len() as int) =~= ps);
                if cells.len() > 0 {
                    let ghost before = rows@;
                    let ghost cv = strs(cells@);
                    rows.push(cells);
                    assert(rows_view(rows@) =~= rows_view(before).push(cv));
                }
            }
            k = k + 1;
        }
        assert(lv.take(ls@.len() as int) =~= lv);
        rows
    }

    /// The language of a code environment's `\begin` line.
    pub fn extract_code_language(begin_line: &str) -> (r: Option<String>)
        ensures
            match spec_code_language(begin_line@) {
                Some(x) => r matches Some(y) && y@ == x,
                None => r is None,
            },
    {
        let l = str_chars(begin_line);
        let ls = l.as_slice();
        match find_str(ls, "language=") {
            Some(lp) => {
                let p = str_chars("language=");
                proof {
                    text::lemma_find_from(l@, "language="@, 0);
                    assert(lp + p@.len() <= l@.len() == l.len());
                }
                let a = lp + p.len();
                let mut e = a;
                let ghost after = l@.skip(a as int);
                let ghost set = seq![',', ']', '}'];
                while e < ls.len() && !(ls[e] == ',' || ls[e] == ']' || ls[e] == '}')
                    invariant
                        a <= e <= l@.len(),
                        ls@ == l@,
                        after == l@.skip(a as int),
                        set == seq![',', ']', '}'],
                        find_any(after, set, 0) == find_any(after, set, (e - a) as nat),
                    decreases l@.len() - e,
                {
                    assert(after[e - a] == ls@[e as int]);
                    e = e + 1;
                }
                proof {
                    if e < l@.len() {
                        assert(after[e - a] == ls@[e as int]);
                        assert(set.contains(after[e - a]));
                    }
                }
                let raw = slice_vec(ls, a, e);
                let lang = trim_vec(raw.as_slice());
                assert(raw@ =~= after.take(find_any(after, set, 0) as int));
                if lang.len() > 0 {
                    return Some(chars_string(lang.as_slice()));
                }
            },
            None => {},
        }
        if contains_str(ls, "minted") {
            let mut i = ls.len();
            while i > 0 && ls[i - 1] != '{'
                invariant
                    i <= l@.len(),
                    ls@ == l@,
                    rfind_char(l@, '{', l@.len()) == rfind_char(l@, '{', i as nat),
                decreases i,
            {
                i = i - 1;
            }
            if i == 0 {
                return None;
            }
            let bs = i - 1;
            match find_char_from(ls, '}', bs + 1) {
                Some(be) => {
                    let raw = slice_vec(ls, bs + 1, be);
                    let lang = trim_vec(raw.as_slice());
                    assert(raw@ =~= l@.skip(bs + 1).take(be - bs - 1));
                    if lang.len() > 0 && !eq_str(lang.as_slice(), "minted") {
                        Some(chars_string(lang.as_slice()))
                    } else {
                        None
                    }
                },
                None => None,
            }
        } else {
            None
        }
    }
}

} // verus!
