//! Brace matching, environment names and text cleaning for LaTeX sources.

use vstd::prelude::*;
use crate::text;
use crate::text::{
    count_matches_exec, find_char_from, find_exec, find_str, is_whitespace, push_all, push_str,
    replace_str, slice_vec, str_chars, trim_vec,
};

verus! {

/// Scanning `s` from `i` with `depth` groups open, the position of the `}` that
/// closes the outermost one; `None` when the text ends first.
pub open spec fn close_brace(s: Seq<char>, i: nat, depth: nat) -> Option<nat>
    decreases s.len() - i,
{
    if i >= s.len() {
        None
    } else if s[i as int] == '{' {
        close_brace(s, i + 1, depth + 1)
    } else if s[i as int] == '}' {
        if depth <= 1 {
            Some(i)
        } else {
            close_brace(s, i + 1, (depth - 1) as nat)
        }
    } else {
        close_brace(s, i + 1, depth)
    }
}

/// A closing position found by `close_brace` lies at or after `i` and holds `}`.
pub proof fn lemma_close_brace(s: Seq<char>, i: nat, depth: nat)
    ensures
        close_brace(s, i, depth) matches Some(j) ==> i <= j < s.len() && s[j as int] == '}',
    decreases s.len() - i,
{
    if i < s.len() {
        if s[i as int] == '{' {
            lemma_close_brace(s, i + 1, depth + 1);
        } else if s[i as int] == '}' {
            if depth > 1 {
                lemma_close_brace(s, i + 1, (depth - 1) as nat);
            }
        } else {
            lemma_close_brace(s, i + 1, depth);
        }
    }
}

/// The position of the `}` closing a group whose content starts at `i`.
pub fn close_brace_exec(s: &[char], i: usize) -> (r: Option<usize>)
    requires
        i <= s@.len(),
    ensures
        r matches Some(j) ==> close_brace(s@, i as nat, 1) == Some(j as nat) && i <= j < s@.len(),
        r is None ==> close_brace(s@, i as nat, 1) is None,
{
    let mut depth: u128 = 1;
    let mut j = i;
    while j < s.len()
        invariant
            i <= j <= s@.len(),
            1 <= depth <= j - i + 1,
            close_brace(s@, i as nat, 1) == close_brace(s@, j as nat, depth as nat),
        decreases s@.len() - j,
    {
        let c = s[j];
        if c == '{' {
            depth = depth + 1;
        } else if c == '}' {
            if depth <= 1 {
                return Some(j);
            }
            depth = depth - 1;
        }
        j = j + 1;
    }
    None
}

/// The text inside the braces of the first `\command{` in `text`, cleaned; `None`
/// when there is no such command or its braces never close.
pub open spec fn spec_extract_braced(text: Seq<char>, command: Seq<char>) -> Option<Seq<char>> {
    let pat = seq!['\\'] + command + seq!['{'];
    match text::find(text, pat) {
        None => None,
        Some(p) => match close_brace(text, p + pat.len(), 1) {
            None => None,
            Some(j) => Some(spec_clean_text(text.subrange(p + pat.len() as int, j as int))),
        },
    }
}

/// LaTeX escapes replaced and the result trimmed.
pub open spec fn spec_clean_text(t: Seq<char>) -> Seq<char> {
    text::trim(
        text::replace(
            text::replace(
                text::replace(
                    text::replace(
                        text::replace(
                            text::replace(text::replace(t, "\\\\"@, "\n"@), "\\&"@, "&"@),
                            "\\#"@,
                            "#"@,
                        ),
                        "\\_"@,
                        "_"@,
                    ),
                    "\\{"@,
                    "{"@,
                ),
                "\\}"@,
                "}"@,
            ),
            "\\%"@,
            "%"@,
        ),
    )
}

/// Replaces the escapes `\\`, `\&`, `\#`, `\_`, `\{`, `\}`, `\%` and trims.
pub fn clean_text(t: &[char]) -> (r: Vec<char>)
    ensures
        r@ == spec_clean_text(t@),
{
    let a = replace_str(t, "\\\\", "\n");
    let b = replace_str(a.as_slice(), "\\&", "&");
    let c = replace_str(b.as_slice(), "\\#", "#");
    let d = replace_str(c.as_slice(), "\\_", "_");
    let e = replace_str(d.as_slice(), "\\{", "{");
    let f = replace_str(e.as_slice(), "\\}", "}");
    let g = replace_str(f.as_slice(), "\\%", "%");
    trim_vec(g.as_slice())
}

/// The pattern `\command{`.
fn command_pattern(command: &[char]) -> (r: Vec<char>)
    ensures
        r@ == seq!['\\'] + command@ + seq!['{'],
{
    let mut p: Vec<char> = Vec::new();
    p.push('\\');
    push_all(&mut p, command);
    p.push('{');
    p
}

/// Extracts the cleaned content within braces of the first `\command{...}`.
pub fn extract_braced(text: &[char], command: &[char]) -> (r: Option<Vec<char>>)
    ensures
        r matches Some(v) ==> spec_extract_braced(text@, command@) == Some(v@),
        r is None ==> spec_extract_braced(text@, command@) is None,
{
    let pat = command_pattern(command);
    match find_exec(text, pat.as_slice()) {
        None => None,
        Some(p) => {
            proof {
                text::lemma_find_from(text@, pat@, 0);
                assert(text::matches_at(text@, p as int, pat@));
                assert(p + pat@.len() <= text@.len() == text.len());
            }
            let start = p + pat.len();
            match close_brace_exec(text, start) {
                None => None,
                Some(j) => {
                    let inner = slice_vec(text, start, j);
                    Some(clean_text(inner.as_slice()))
                },
            }
        },
    }
}

/// After skipping whitespace from `pos`: the content of a braced group starting
/// there, and the position after it. With no `{` the result is `None` and the
/// position after the whitespace; a group that never closes yields everything up
/// to the end of the text.
pub open spec fn spec_read_braced(s: Seq<char>, pos: nat) -> (Option<Seq<char>>, nat) {
    let p = skip_ws(s, pos);
    if p >= s.len() || s[p as int] != '{' {
        (None, p)
    } else {
        match close_brace(s, p + 1, 1) {
            Some(j) => (Some(s.subrange(p as int + 1, j as int)), j + 1),
            None => (Some(s.subrange(p as int + 1, s.len() as int)), s.len()),
        }
    }
}

/// The first position at or after `i` that is not whitespace (or the end).
pub open spec fn skip_ws(s: Seq<char>, i: nat) -> nat
    decreases s.len() - i,
{
    if i < s.len() && text::is_ws(s[i as int]) {
        skip_ws(s, i + 1)
    } else {
        i
    }
}

/// `skip_ws` does not move backwards and stays within the text.
pub proof fn lemma_skip_ws(s: Seq<char>, i: nat)
    requires
        i <= s.len(),
    ensures
        i <= skip_ws(s, i) <= s.len(),
    decreases s.len() - i,
{
    if i < s.len() && text::is_ws(s[i as int]) {
        lemma_skip_ws(s, i + 1);
    }
}

/// The first position at or after `i` that is not whitespace.
pub fn skip_ws_exec(s: &[char], i: usize) -> (r: usize)
    requires
        i <= s@.len(),
    ensures
        r == skip_ws(s@, i as nat),
        i <= r <= s@.len(),
{
    let mut j = i;
    while j < s.len() && is_whitespace(s[j])
        invariant
            i <= j <= s@.len(),
            skip_ws(s@, i as nat) == skip_ws(s@, j as nat),
        decreases s@.len() - j,
    {
        j = j + 1;
    }
    j
}

/// Reads a braced group after optional whitespace starting at `pos`.
pub fn read_braced_from_chars(s: &[char], pos: usize) -> (r: (Option<Vec<char>>, usize))
    requires
        pos <= s@.len(),
    ensures
        r.0 matches Some(v) ==> spec_read_braced(s@, pos as nat) == (Some(v@), r.1 as nat),
        r.0 is None ==> spec_read_braced(s@, pos as nat) == (None::<Seq<char>>, r.1 as nat),
        pos <= r.1 <= s@.len(),
{
    let p = skip_ws_exec(s, pos);
    if p >= s.len() || s[p] != '{' {
        return (None, p);
    }
    match close_brace_exec(s, p + 1) {
        Some(j) => (Some(slice_vec(s, p + 1, j)), j + 1),
        None => (Some(slice_vec(s, p + 1, s.len())), s.len()),
    }
}

/// The name inside the braces of the first `\begin{` (or, failing that, `\begin {`).
pub open spec fn spec_extract_env_name(line: Seq<char>) -> Option<Seq<char>> {
    let start = match text::find(line, "\\begin{"@) {
        Some(k) => Some(k),
        None => text::find(line, "\\begin {"@),
    };
    match start {
        None => None,
        Some(st) => match text::find_char(line.skip(st as int), '{') {
            None => None,
            Some(bp) => {
                let after = line.skip(st as int + bp as int + 1);
                match text::find_char(after, '}') {
                    None => None,
                    Some(e) => Some(after.take(e as int)),
                }
            },
        },
    }
}

/// Extracts the environment name from a `\begin{name}` statement.
pub fn extract_env_name(line: &[char]) -> (r: Option<Vec<char>>)
    ensures
        r matches Some(v) ==> spec_extract_env_name(line@) == Some(v@),
        r is None ==> spec_extract_env_name(line@) is None,
{
    let start = match find_str(line, "\\begin{") {
        Some(k) => k,
        None => match find_str(line, "\\begin {") {
            Some(k) => k,
            None => return None,
        },
    };
    proof {
        text::lemma_find_from(line@, "\\begin{"@, 0);
        text::lemma_find_from(line@, "\\begin {"@, 0);
    }
    let bp = match find_char_from(line, '{', start) {
        Some(k) => k,
        None => return None,
    };
    assert(bp < line@.len() == line.len());
    let a = bp + 1;
    match find_char_from(line, '}', a) {
        None => {
            proof {
                assert(line@.skip(a as int) =~= line@.skip(start + (bp - start) + 1));
            }
            None
        },
        Some(e) => {
            proof {
                assert(line@.skip(a as int) =~= line@.skip(start + (bp - start) + 1));
                assert(line@.skip(a as int).take(e - a) =~= line@.subrange(a as int, e as int));
            }
            Some(slice_vec(line, a, e))
        },
    }
}


/// The title inside the braces after `\command`, skipping an optional `[short]`
/// argument, cleaned.
pub open spec fn spec_extract_heading_title(line: Seq<char>, command: Seq<char>) -> Option<
    Seq<char>,
> {
    let prefix = seq!['\\'] + command;
    match text::find(line, prefix) {
        None => None,
        Some(st) => {
            let a = st + prefix.len();
            let rest = if a < line.len() && line[a as int] == '[' {
                match text::find_char(line.skip(a as int), ']') {
                    None => None,
                    Some(be) => Some(a + be + 1),
                }
            } else {
                Some(a)
            };
            match rest {
                None => None,
                Some(r) => if r < line.len() && line[r as int] == '{' {
                    match close_brace(line, (r + 1) as nat, 1) {
                        None => None,
                        Some(j) => Some(spec_clean_text(line.subrange(r as int + 1, j as int))),
                    }
                } else {
                    None
                },
            }
        },
    }
}

/// Extracts a section title, handling `\section{t}`, `\section[s]{t}` and `\section*{t}`.
pub fn extract_heading_title(line: &[char], command: &[char]) -> (r: Option<Vec<char>>)
    ensures
        r matches Some(v) ==> spec_extract_heading_title(line@, command@) == Some(v@),
        r is None ==> spec_extract_heading_title(line@, command@) is None,
{
    let mut prefix: Vec<char> = Vec::new();
    prefix.push('\\');
    push_all(&mut prefix, command);
    let st = match find_exec(line, prefix.as_slice()) {
        None => return None,
        Some(k) => k,
    };
    proof {
        text::lemma_find_from(line@, prefix@, 0);
        assert(text::matches_at(line@, st as int, prefix@));
        assert(st + prefix@.len() <= line@.len() == line.len());
    }
    let a = st + prefix.len();
    let r = if a < line.len() && line[a] == '[' {
        match find_char_from(line, ']', a) {
            None => return None,
            Some(k) => k + 1,
        }
    } else {
        a
    };
    if r < line.len() && line[r] == '{' {
        match close_brace_exec(line, r + 1) {
            None => None,
            Some(j) => {
                let inner = slice_vec(line, r + 1, j);
                Some(clean_text(inner.as_slice()))
            },
        }
    } else {
        None
    }
}

/// Sum of the lengths of a sequence of lines.
pub open spec fn total_len(ls: Seq<Seq<char>>) -> nat
    decreases ls.len(),
{
    if ls.len() == 0 {
        0
    } else {
        total_len(ls.drop_last()) + ls.last().len()
    }
}

/// Non-overlapping matches of a pattern take no more room than the text.
pub proof fn lemma_count_matches_bound(s: Seq<char>, p: Seq<char>)
    requires
        p.len() >= 1,
    ensures
        text::count_matches(s, p) * p.len() <= s.len(),
    decreases s.len(),
{
    if s.len() == 0 {
        assert(text::count_matches(s, p) == 0);
    } else if text::starts_with(s, p) {
        let r = s.skip(p.len() as int);
        lemma_count_matches_bound(r, p);
        let c = text::count_matches(r, p);
        assert(text::count_matches(s, p) == 1 + c);
        assert(r.len() == s.len() - p.len());
        assert((1 + c) * p.len() == p.len() + c * p.len()) by (nonlinear_arith);
    } else {
        lemma_count_matches_bound(s.drop_first(), p);
        assert(text::count_matches(s, p) == text::count_matches(s.drop_first(), p));
    }
}

/// Collecting an environment's body line by line: stop at the line where the
/// nesting depth of same-named environments drops to zero.
pub open spec fn collect_from(
    lines: Seq<Seq<char>>,
    i: nat,
    depth: int,
    env: Seq<char>,
    acc: Seq<char>,
) -> (Seq<char>, nat)
    decreases lines.len() - i,
{
    if i >= lines.len() {
        (acc, i)
    } else {
        let t = text::trim(lines[i as int]);
        let d = depth + text::count_matches(t, "\\begin{"@ + env + "}"@) + text::count_matches(
            t,
            "\\begin {"@ + env + "}"@,
        ) - text::count_matches(t, "\\end{"@ + env + "}"@) - text::count_matches(
            t,
            "\\end {"@ + env + "}"@,
        );
        if d <= 0 {
            (acc, i + 1)
        } else {
            collect_from(lines, i + 1, d, env, acc + lines[i as int] + seq!['\n'])
        }
    }
}

/// The body of the environment `env` opened on line `start`, and the index of the
/// line after its `\end`. A single-line `\begin{env}...\end{env}` yields what lies
/// between the markers.
pub open spec fn spec_collect_environment(lines: Seq<Seq<char>>, start: nat, env: Seq<char>) -> (
    Seq<char>,
    nat,
) {
    let begin_m = "\\begin{"@ + env + "}"@;
    let end_m = "\\end{"@ + env + "}"@;
    let sl = lines[start as int];
    let single = match text::find(sl, begin_m) {
        None => None,
        Some(bp) => {
            let after = sl.skip(bp as int + begin_m.len() as int);
            match text::find(after, end_m) {
                None => None,
                Some(ep) => Some(after.take(ep as int)),
            }
        },
    };
    match single {
        Some(inner) => (inner, start + 1),
        None => collect_from(lines, start + 1, 1, env, seq![]),
    }
}

/// A marker `prefix + env + "}"`.
fn marker(prefix: &str, env: &[char]) -> (r: Vec<char>)
    ensures
        r@ == prefix@ + env@ + "}"@,
{
    let mut m = str_chars(prefix);
    push_all(&mut m, env);
    push_str(&mut m, "}");
    m
}

/// Collects an environment's content from its `\begin` line to the matching `\end`.
pub fn collect_environment(lines: &[Vec<char>], start: usize, env: &[char]) -> (r: (
    Vec<char>,
    usize,
))
    requires
        start < lines@.len(),
    ensures
        spec_collect_environment(text::views(lines@), start as nat, env@) == (r.0@, r.1 as nat),
        start < r.1 <= lines@.len(),
{
    let begin_m = marker("\\begin{", env);
    let end_m = marker("\\end{", env);
    let ghost ls = text::views(lines@);
    let sl = lines[start].as_slice();
    assert(sl@ == ls[start as int]);
    match find_exec(sl, begin_m.as_slice()) {
        Some(bp) => {
            proof {
                text::lemma_find_from(sl@, begin_m@, 0);
                assert(bp + begin_m@.len() <= sl@.len() == sl.len());
            }
            let a = bp + begin_m.len();
            let after = slice_vec(sl, a, sl.len());
            assert(after@ =~= sl@.skip(a as int));
            match find_exec(after.as_slice(), end_m.as_slice()) {
                Some(ep) => {
                    proof {
                        text::lemma_find_from(after@, end_m@, 0);
                    }
                    let inner = slice_vec(after.as_slice(), 0, ep);
                    assert(inner@ =~= after@.take(ep as int));
                    return (inner, start + 1);
                },
                None => {},
            }
        },
        None => {},
    }
    let begin_sp = marker("\\begin {", env);
    let end_sp = marker("\\end {", env);
    proof {
        reveal_strlit("\\begin{");
        reveal_strlit("\\begin {");
        reveal_strlit("\\end{");
        reveal_strlit("\\end {");
        reveal_strlit("}");
    }
    let mut content: Vec<char> = Vec::new();
    let mut i = start + 1;
    let mut depth: u128 = 1;
    let n = lines.len();
    while i < n
        invariant
            start < i <= n == lines@.len(),
            ls == text::views(lines@),
            begin_m@ == "\\begin{"@ + env@ + "}"@,
            begin_sp@ == "\\begin {"@ + env@ + "}"@,
            end_m@ == "\\end{"@ + env@ + "}"@,
            end_sp@ == "\\end {"@ + env@ + "}"@,
            begin_m@.len() >= 2,
            begin_sp@.len() >= 2,
            1 <= depth,
            depth as int <= 1 + (i - start - 1) * (usize::MAX as int),
            spec_collect_environment(ls, start as nat, env@) == collect_from(
                ls,
                start as nat + 1,
                1,
                env@,
                seq![],
            ),
            collect_from(ls, start as nat + 1, 1, env@, seq![]) == collect_from(
                ls,
                i as nat,
                depth as int,
                env@,
                content@,
            ),
        decreases n - i,
    {
        let line = lines[i].as_slice();
        assert(line@ == ls[i as int]);
        let t = trim_vec(line);
        let b1 = count_matches_exec(t.as_slice(), begin_m.as_slice());
        let b2 = count_matches_exec(t.as_slice(), begin_sp.as_slice());
        let e1 = count_matches_exec(t.as_slice(), end_m.as_slice());
        let e2 = count_matches_exec(t.as_slice(), end_sp.as_slice());
        proof {
            lemma_count_matches_bound(t@, begin_m@);
            lemma_count_matches_bound(t@, begin_sp@);
            assert(b1 * 2 <= b1 * begin_m@.len()) by (nonlinear_arith)
                requires
                    begin_m@.len() >= 2,
            ;
            assert(b2 * 2 <= b2 * begin_sp@.len()) by (nonlinear_arith)
                requires
                    begin_sp@.len() >= 2,
            ;
            assert(t@.len() <= usize::MAX) by {
                assert(t@.len() == t.len());
            }
            assert(i - start - 1 < usize::MAX);
            assert((i - start - 1) * (usize::MAX as int) <= (usize::MAX as int) * (usize::MAX as int))
                by (nonlinear_arith)
                requires
                    0 <= i - start - 1 <= usize::MAX,
            ;
            assert((usize::MAX as int) * (usize::MAX as int) + usize::MAX + 1 <= u128::MAX)
                by (nonlinear_arith)
                requires
                    usize::MAX <= u64::MAX,
            ;
        }
        let up: u128 = depth + b1 as u128 + b2 as u128;
        let down: u128 = e1 as u128 + e2 as u128;
        let ghost d: int = depth + b1 + b2 - e1 - e2;
        assert(t@ == text::trim(ls[i as int]));
        assert(collect_from(ls, i as nat, depth as int, env@, content@) == if d <= 0 {
            (content@, (i + 1) as nat)
        } else {
            collect_from(ls, (i + 1) as nat, d, env@, content@ + ls[i as int] + seq!['\n'])
        });
        if up <= down {
            return (content, i + 1);
        }
        depth = up - down;
        let ghost prev = content@;
        push_all(&mut content, line);
        content.push('\n');
        assert(content@ =~= prev + ls[i as int] + seq!['\n']);
        proof {
            assert((i + 1 - start - 1) * (usize::MAX as int) == (i - start - 1) * (usize::MAX as int)
                + usize::MAX) by (nonlinear_arith);
        }
        i = i + 1;
    }
    (content, i)
}

} // verus!
