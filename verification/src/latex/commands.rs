//! Inline LaTeX commands: formatting, references, symbols and inline math,
//! rendered as plain text.

use vstd::prelude::*;
use crate::text;
use crate::text::{is_alphabetic, push_all, str_chars};
use super::utilities::{read_braced_from_chars, spec_read_braced, lemma_skip_ws, lemma_close_brace};

verus! {

/// How a command name is rendered.
#[derive(PartialEq, Eq, Structural, Clone, Copy, Debug)]
pub enum CmdClass {
    /// The braced argument, itself processed (`\textbf`, `\emph`, `\mbox`, ...).
    Process,
    /// The braced argument as written (`\texttt`, `\url`, `\ensuremath`, ...).
    Verbatim,
    /// Everything up to the next backslash is dropped (`\font`).
    Font,
    /// All following `{..}` and `[..]` arguments are dropped (`\usepackage`, ...).
    Setup,
    /// An optional `[..]`, then the key in square brackets (`\cite`, ...).
    Cite,
    /// The label in square brackets (`\ref`, ...).
    Ref,
    /// The argument is dropped (`\label`).
    Label,
    /// `\href{url}{text}`: the text followed by the URL in parentheses.
    Href,
    /// The processed argument in parentheses (`\footnote`).
    Footnote,
    /// One character, after an optional `{}` (`\textgreater`, `\ldots`, ...).
    Symbol(char),
    /// Nothing at all (`\par`, `\maketitle`, size switches, ...).
    Silent,
    /// Any other name: a directly following braced argument, processed.
    Unknown,
}

/// The class of a command name.
pub open spec fn cmd_class(c: Seq<char>) -> CmdClass {
    if c == "textbf"@ || c == "textit"@ || c == "emph"@ || c == "underline"@ || c == "mbox"@ || c
        == "hbox"@ || c == "vbox"@ || c == "text"@ || c == "mathrm"@ || c == "mathbf"@ || c
        == "mathit"@ || c == "mathsf"@ || c == "mathtt"@ || c == "boldsymbol"@ || c == "textrm"@
        || c == "textsf"@ || c == "sout"@ {
        CmdClass::Process
    } else if c == "texttt"@ || c == "url"@ || c == "textsuperscript"@ || c == "textsubscript"@
        || c == "ensuremath"@ {
        CmdClass::Verbatim
    } else if c == "font"@ {
        CmdClass::Font
    } else if c == "usepackage"@ || c == "documentclass"@ || c == "pagestyle"@ || c
        == "setlength"@ || c == "newcommand"@ || c == "renewcommand"@ || c == "def"@ || c
        == "let"@ || c == "input"@ || c == "include"@ || c == "bibliography"@ || c
        == "bibliographystyle"@ || c == "graphicspath"@ || c == "geometry"@ || c
        == "hypersetup"@ || c == "rule"@ || c == "hspace"@ || c == "vspace"@ || c
        == "addtolength"@ || c == "setcounter"@ || c == "addtocounter"@ || c == "value"@ || c
        == "VerbatimFootnotes"@ || c == "numberwithin"@ {
        CmdClass::Setup
    } else if c == "cite"@ || c == "citep"@ || c == "citet"@ || c == "citealp"@ || c
        == "citeauthor"@ || c == "citeyear"@ {
        CmdClass::Cite
    } else if c == "ref"@ || c == "eqref"@ || c == "pageref"@ || c == "autoref"@ || c == "cref"@
        || c == "Cref"@ || c == "nameref"@ {
        CmdClass::Ref
    } else if c == "label"@ {
        CmdClass::Label
    } else if c == "href"@ {
        CmdClass::Href
    } else if c == "footnote"@ || c == "footnotetext"@ {
        CmdClass::Footnote
    } else if c == "textgreater"@ {
        CmdClass::Symbol('>')
    } else if c == "textless"@ {
        CmdClass::Symbol('<')
    } else if c == "textbackslash"@ {
        CmdClass::Symbol('\\')
    } else if c == "ldots"@ || c == "dots"@ {
        CmdClass::Symbol('\u{2026}')
    } else if c == "textendash"@ {
        CmdClass::Symbol('\u{2013}')
    } else if c == "textemdash"@ {
        CmdClass::Symbol('\u{2014}')
    } else if c == "par"@ || c == "noindent"@ || c == "newline"@ || c == "linebreak"@ || c
        == "pagebreak"@ || c == "newpage"@ || c == "clearpage"@ || c == "cleardoublepage"@ || c
        == "bigskip"@ || c == "medskip"@ || c == "smallskip"@ || c == "vfill"@ || c == "hfill"@
        || c == "centering"@ || c == "raggedright"@ || c == "raggedleft"@ || c == "maketitle"@
        || c == "tableofcontents"@ || c == "listoffigures"@ || c == "listoftables"@ || c
        == "appendix"@ || c == "indent"@ || c == "relax"@ || c == "protect"@ || c == "nobreak"@
        || c == "allowbreak"@ || c == "sloppy"@ || c == "fussy"@ || c == "normalsize"@ || c
        == "small"@ || c == "footnotesize"@ || c == "large"@ || c == "Large"@ || c == "LARGE"@
        || c == "huge"@ || c == "Huge"@ || c == "tiny"@ || c == "scriptsize"@ || c
        == "doublespacing"@ || c == "singlespacing"@ || c == "onehalfspacing"@ {
        CmdClass::Silent
    } else {
        CmdClass::Unknown
    }
}

/// Whether the characters `a` spell the literal `b`.
pub fn eq_str(a: &[char], b: &str) -> (r: bool)
    ensures
        r == (a@ == b@),
{
    let bv = str_chars(b);
    if a.len() != bv.len() {
        return false;
    }
    let mut k: usize = 0;
    while k < a.len()
        invariant
            k <= a@.len() == bv@.len(),
            bv@ == b@,
            forall|j: int| 0 <= j < k ==> a@[j] == bv@[j],
        decreases a@.len() - k,
    {
        if a[k] != bv[k] {
            assert(a@[k as int] != bv@[k as int]);
            return false;
        }
        k = k + 1;
    }
    assert(a@ =~= bv@);
    true
}

/// Classifies a command name.
pub fn classify(c: &[char]) -> (r: CmdClass)
    ensures
        r == cmd_class(c@),
{
    if eq_str(c, "textbf") || eq_str(c, "textit") || eq_str(c, "emph") || eq_str(c, "underline")
        || eq_str(c, "mbox") || eq_str(c, "hbox") || eq_str(c, "vbox") || eq_str(c, "text")
        || eq_str(c, "mathrm") || eq_str(c, "mathbf") || eq_str(c, "mathit") || eq_str(c, "mathsf")
        || eq_str(c, "mathtt") || eq_str(c, "boldsymbol") || eq_str(c, "textrm") || eq_str(
        c,
        "textsf",
    ) || eq_str(c, "sout") {
        CmdClass::Process
    } else if eq_str(c, "texttt") || eq_str(c, "url") || eq_str(c, "textsuperscript") || eq_str(
        c,
        "textsubscript",
    ) || eq_str(c, "ensuremath") {
        CmdClass::Verbatim
    } else if eq_str(c, "font") {
        CmdClass::Font
    } else if eq_str(c, "usepackage") || eq_str(c, "documentclass") || eq_str(c, "pagestyle")
        || eq_str(c, "setlength") || eq_str(c, "newcommand") || eq_str(c, "renewcommand") || eq_str(
        c,
        "def",
    ) || eq_str(c, "let") || eq_str(c, "input") || eq_str(c, "include") || eq_str(
        c,
        "bibliography",
    ) || eq_str(c, "bibliographystyle") || eq_str(c, "graphicspath") || eq_str(c, "geometry")
        || eq_str(c, "hypersetup") || eq_str(c, "rule") || eq_str(c, "hspace") || eq_str(
        c,
        "vspace",
    ) || eq_str(c, "addtolength") || eq_str(c, "setcounter") || eq_str(c, "addtocounter")
        || eq_str(c, "value") || eq_str(c, "VerbatimFootnotes") || eq_str(c, "numberwithin") {
        CmdClass::Setup
    } else if eq_str(c, "cite") || eq_str(c, "citep") || eq_str(c, "citet") || eq_str(c, "citealp")
        || eq_str(c, "citeauthor") || eq_str(c, "citeyear") {
        CmdClass::Cite
    } else if eq_str(c, "ref") || eq_str(c, "eqref") || eq_str(c, "pageref") || eq_str(c, "autoref")
        || eq_str(c, "cref") || eq_str(c, "Cref") || eq_str(c, "nameref") {
        CmdClass::Ref
    } else if eq_str(c, "label") {
        CmdClass::Label
    } else if eq_str(c, "href") {
        CmdClass::Href
    } else if eq_str(c, "footnote") || eq_str(c, "footnotetext") {
        CmdClass::Footnote
    } else if eq_str(c, "textgreater") {
        CmdClass::Symbol('>')
    } else if eq_str(c, "textless") {
        CmdClass::Symbol('<')
    } else if eq_str(c, "textbackslash") {
        CmdClass::Symbol('\\')
    } else if eq_str(c, "ldots") || eq_str(c, "dots") {
        CmdClass::Symbol('\u{2026}')
    } else if eq_str(c, "textendash") {
        CmdClass::Symbol('\u{2013}')
    } else if eq_str(c, "textemdash") {
        CmdClass::Symbol('\u{2014}')
    } else if eq_str(c, "par") || eq_str(c, "noindent") || eq_str(c, "newline") || eq_str(
        c,
        "linebreak",
    ) || eq_str(c, "pagebreak") || eq_str(c, "newpage") || eq_str(c, "clearpage") || eq_str(
        c,
        "cleardoublepage",
    ) || eq_str(c, "bigskip") || eq_str(c, "medskip") || eq_str(c, "smallskip") || eq_str(
        c,
        "vfill",
    ) || eq_str(c, "hfill") || eq_str(c, "centering") || eq_str(c, "raggedright") || eq_str(
        c,
        "raggedleft",
    ) || eq_str(c, "maketitle") || eq_str(c, "tableofcontents") || eq_str(c, "listoffigures")
        || eq_str(c, "listoftables") || eq_str(c, "appendix") || eq_str(c, "indent") || eq_str(
        c,
        "relax",
    ) || eq_str(c, "protect") || eq_str(c, "nobreak") || eq_str(c, "allowbreak") || eq_str(
        c,
        "sloppy",
    ) || eq_str(c, "fussy") || eq_str(c, "normalsize") || eq_str(c, "small") || eq_str(
        c,
        "footnotesize",
    ) || eq_str(c, "large") || eq_str(c, "Large") || eq_str(c, "LARGE") || eq_str(c, "huge")
        || eq_str(c, "Huge") || eq_str(c, "tiny") || eq_str(c, "scriptsize") || eq_str(
        c,
        "doublespacing",
    ) || eq_str(c, "singlespacing") || eq_str(c, "onehalfspacing") {
        CmdClass::Silent
    } else {
        CmdClass::Unknown
    }
}

// ---------------------------------------------------------------------------
// Scanning helpers
// ---------------------------------------------------------------------------

/// The end of the run of alphabetic characters starting at `i`.
pub open spec fn alpha_end(s: Seq<char>, i: nat) -> nat
    decreases s.len() - i,
{
    if i < s.len() && text::alphabetic(s[i as int]) {
        alpha_end(s, i + 1)
    } else {
        i
    }
}

/// The position just after the first occurrence of `c` at or after `i`, or the end.
pub open spec fn past_char(s: Seq<char>, i: nat, c: char) -> nat
    decreases s.len() - i,
{
    if i >= s.len() {
        i
    } else if s[i as int] == c {
        i + 1
    } else {
        past_char(s, i + 1, c)
    }
}

/// The first position at or after `i` holding `c`, or the end.
pub open spec fn upto_char(s: Seq<char>, i: nat, c: char) -> nat
    decreases s.len() - i,
{
    if i >= s.len() || s[i as int] == c {
        i
    } else {
        upto_char(s, i + 1, c)
    }
}

/// After a setup command: skip every following `[..]` and `{..}` argument.
pub open spec fn skip_args(s: Seq<char>, i: nat) -> nat
    decreases s.len() - i,
{
    if i < s.len() && s[i as int] == '[' {
        proof {
            lemma_scans(s, i + 1, ']');
        }
        skip_args(s, past_char(s, i + 1, ']'))
    } else if i < s.len() && s[i as int] == '{' {
        let q = spec_read_braced(s, i).1;
        if q > i && q <= s.len() {
            skip_args(s, q)
        } else {
            i
        }
    } else {
        i
    }
}

/// Scanning helpers stay inside the text and never move backwards.
pub proof fn lemma_scans(s: Seq<char>, i: nat, c: char)
    requires
        i <= s.len(),
    ensures
        i <= alpha_end(s, i) <= s.len(),
        i <= past_char(s, i, c) <= s.len(),
        i < s.len() ==> i < past_char(s, i, c),
        i <= upto_char(s, i, c) <= s.len(),
    decreases s.len() - i,
{
    if i < s.len() {
        lemma_scans(s, i + 1, c);
    }
}

/// Facts about `spec_read_braced`.
pub proof fn lemma_read_braced(s: Seq<char>, pos: nat)
    requires
        pos <= s.len(),
    ensures
        pos <= spec_read_braced(s, pos).1 <= s.len(),
        spec_read_braced(s, pos).0 matches Some(c) ==> c.len() < s.len() && pos
            < spec_read_braced(s, pos).1,
{
    lemma_skip_ws(s, pos);
    let p = super::utilities::skip_ws(s, pos);
    if p < s.len() && s[p as int] == '{' {
        lemma_close_brace(s, p + 1, 1);
    }
}

/// `skip_args` stays inside the text and never moves backwards.
pub proof fn lemma_skip_args(s: Seq<char>, i: nat)
    requires
        i <= s.len(),
    ensures
        i <= skip_args(s, i) <= s.len(),
    decreases s.len() - i,
{
    if i < s.len() && s[i as int] == '[' {
        lemma_scans(s, i + 1, ']');
        lemma_skip_args(s, past_char(s, i + 1, ']'));
    } else if i < s.len() && s[i as int] == '{' {
        lemma_read_braced(s, i);
        let q = spec_read_braced(s, i).1;
        if q > i && q <= s.len() {
            lemma_skip_args(s, q);
        }
    }
}

/// Where processing resumes after the command whose name ends at `p`.
pub open spec fn cmd_next(s: Seq<char>, k: CmdClass, p: nat) -> nat {
    match k {
        CmdClass::Process | CmdClass::Verbatim | CmdClass::Ref | CmdClass::Label
        | CmdClass::Footnote => spec_read_braced(s, p).1,
        CmdClass::Font => upto_char(s, p, '\\'),
        CmdClass::Setup => skip_args(s, p),
        CmdClass::Cite => {
            let q = if p < s.len() && s[p as int] == '[' {
                past_char(s, p + 1, ']')
            } else {
                p
            };
            spec_read_braced(s, q).1
        },
        CmdClass::Href => spec_read_braced(s, spec_read_braced(s, p).1).1,
        CmdClass::Symbol(_) => if p < s.len() && s[p as int] == '{' {
            spec_read_braced(s, p).1
        } else {
            p
        },
        CmdClass::Silent => p,
        CmdClass::Unknown => if p < s.len() && s[p as int] == '{' {
            spec_read_braced(s, p).1
        } else {
            p
        },
    }
}

/// `cmd_next` stays inside the text and never moves backwards.
pub proof fn lemma_cmd_next(s: Seq<char>, k: CmdClass, p: nat)
    requires
        p <= s.len(),
    ensures
        p <= cmd_next(s, k, p) <= s.len(),
{
    lemma_read_braced(s, p);
    lemma_scans(s, p, '\\');
    lemma_skip_args(s, p);
    if p < s.len() {
        lemma_scans(s, p + 1, ']');
        lemma_read_braced(s, past_char(s, p + 1, ']'));
    }
    lemma_read_braced(s, spec_read_braced(s, p).1);
}

// ---------------------------------------------------------------------------
// The line processor
// ---------------------------------------------------------------------------

/// The plain-text rendering of a line of LaTeX.
pub open spec fn spec_process_line(s: Seq<char>) -> Seq<char>
    decreases s.len(), 1int, s.len() + 1,
{
    process_from(s, 0)
}

/// The rendering of `s` from position `i` on.
pub open spec fn process_from(s: Seq<char>, i: nat) -> Seq<char>
    decreases s.len(), 1int, s.len() - i,
{
    if i >= s.len() {
        seq![]
    } else if s[i as int] == '\\' {
        proof {
            lemma_scans(s, i + 1, '\\');
        }
        let e = alpha_end(s, i + 1);
        let k = cmd_class(s.subrange(i as int + 1, e as int));
        proof {
            lemma_cmd_next(s, k, e);
        }
        let j = cmd_next(s, k, e);
        cmd_output(s, k, e) + process_from(s, j)
    } else if s[i as int] == '$' {
        proof {
            lemma_scans(s, i + 1, '$');
        }
        let j = past_char(s, i + 1, '$');
        s.subrange(i as int, j as int) + process_from(s, j)
    } else {
        seq![s[i as int]] + process_from(s, i + 1)
    }
}

/// What a command of class `k`, whose name ends at `p`, contributes.
pub open spec fn cmd_output(s: Seq<char>, k: CmdClass, p: nat) -> Seq<char>
    decreases s.len(), 0int, 0int,
{
    if p > s.len() {
        seq![]
    } else {
        proof {
            lemma_read_braced(s, p);
        }
        let rb = spec_read_braced(s, p);
        match k {
            CmdClass::Process => match rb.0 {
                Some(c) => spec_process_line(c),
                None => seq![],
            },
            CmdClass::Verbatim => match rb.0 {
                Some(c) => c,
                None => seq![],
            },
            CmdClass::Ref => match rb.0 {
                Some(c) => seq!['['] + c + seq![']'],
                None => seq![],
            },
            CmdClass::Footnote => match rb.0 {
                Some(c) => " ("@ + spec_process_line(c) + seq![')'],
                None => seq![],
            },
            CmdClass::Cite => {
                proof {
                    if p < s.len() {
                        lemma_scans(s, p + 1, ']');
                    }
                }
                let q = if p < s.len() && s[p as int] == '[' {
                    past_char(s, p + 1, ']')
                } else {
                    p
                };
                match spec_read_braced(s, q).0 {
                    Some(c) => seq!['['] + c + seq![']'],
                    None => seq![],
                }
            },
            CmdClass::Href => {
                proof {
                    lemma_read_braced(s, rb.1);
                }
                let url = rb.0;
                let txt = spec_read_braced(s, rb.1).0;
                match (txt, url) {
                    (Some(t), Some(u)) => spec_process_line(t) + " ("@ + u + seq![')'],
                    (Some(t), None) => spec_process_line(t),
                    (None, Some(u)) => u,
                    (None, None) => seq![],
                }
            },
            CmdClass::Symbol(c) => seq![c],
            CmdClass::Unknown => if p < s.len() && s[p as int] == '{' {
                match rb.0 {
                    Some(c) => spec_process_line(c),
                    None => seq![],
                }
            } else {
                seq![]
            },
            _ => seq![],
        }
    }
}

/// The first position at or after `i` holding `c`.
fn upto_char_exec(s: &[char], i: usize, c: char) -> (r: usize)
    requires
        i <= s@.len(),
    ensures
        r == upto_char(s@, i as nat, c),
{
    let mut j = i;
    while j < s.len() && s[j] != c
        invariant
            i <= j <= s@.len(),
            upto_char(s@, i as nat, c) == upto_char(s@, j as nat, c),
        decreases s@.len() - j,
    {
        j = j + 1;
    }
    j
}

/// The position just after the first `c` at or after `i`.
fn past_char_exec(s: &[char], i: usize, c: char) -> (r: usize)
    requires
        i <= s@.len(),
    ensures
        r == past_char(s@, i as nat, c),
{
    let mut j = i;
    while j < s.len()
        invariant
            i <= j <= s@.len(),
            past_char(s@, i as nat, c) == past_char(s@, j as nat, c),
        decreases s@.len() - j,
    {
        if s[j] == c {
            return j + 1;
        }
        j = j + 1;
    }
    j
}

/// The end of the run of alphabetic characters starting at `i`.
fn alpha_end_exec(s: &[char], i: usize) -> (r: usize)
    requires
        i <= s@.len(),
    ensures
        r == alpha_end(s@, i as nat),
{
    let mut j = i;
    while j < s.len() && is_alphabetic(s[j])
        invariant
            i <= j <= s@.len(),
            alpha_end(s@, i as nat) == alpha_end(s@, j as nat),
        decreases s@.len() - j,
    {
        j = j + 1;
    }
    j
}

/// Skips every `[..]` and `{..}` argument starting at `i`.
fn skip_args_exec(s: &[char], i: usize) -> (r: usize)
    requires
        i <= s@.len(),
    ensures
        r == skip_args(s@, i as nat),
{
    let mut j = i;
    loop
        invariant
            i <= j <= s@.len(),
            skip_args(s@, i as nat) == skip_args(s@, j as nat),
        decreases s@.len() - j,
    {
        if j < s.len() && s[j] == '[' {
            proof {
                lemma_scans(s@, (j + 1) as nat, ']');
            }
            j = past_char_exec(s, j + 1, ']');
        } else if j < s.len() && s[j] == '{' {
            proof {
                lemma_read_braced(s@, j as nat);
            }
            let (_c, q) = read_braced_from_chars(s, j);
            if q > j {
                j = q;
            } else {
                return j;
            }
        } else {
            return j;
        }
    }
}

/// Renders one command of class `k` whose name ends at `p`, appending to `out`;
/// returns where processing resumes.
pub fn process_command(s: &[char], k: CmdClass, p: usize, out: &mut Vec<char>) -> (r: usize)
    requires
        p <= s@.len(),
    ensures
        final(out)@ == old(out)@ + cmd_output(s@, k, p as nat),
        r == cmd_next(s@, k, p as nat),
    decreases s@.len(), 0int,
{
    proof {
        lemma_read_braced(s@, p as nat);
        lemma_cmd_next(s@, k, p as nat);
    }
    match k {
        CmdClass::Process => {
            let (c, q) = read_braced_from_chars(s, p);
            if let Some(c) = c {
                let piece = process_line(c.as_slice());
                push_all(out, piece.as_slice());
            }
            q
        },
        CmdClass::Verbatim => {
            let (c, q) = read_braced_from_chars(s, p);
            if let Some(c) = c {
                push_all(out, c.as_slice());
            }
            q
        },
        CmdClass::Ref => {
            let (c, q) = read_braced_from_chars(s, p);
            if let Some(c) = c {
                let ghost prev = out@;
                out.push('[');
                push_all(out, c.as_slice());
                out.push(']');
                assert(out@ =~= prev + (seq!['['] + c@ + seq![']']));
            }
            q
        },
        CmdClass::Label => {
            let (_c, q) = read_braced_from_chars(s, p);
            q
        },
        CmdClass::Footnote => {
            let (c, q) = read_braced_from_chars(s, p);
            if let Some(c) = c {
                let piece = process_line(c.as_slice());
                let ghost prev = out@;
                text::push_str(out, " (");
                push_all(out, piece.as_slice());
                out.push(')');
                assert(out@ =~= prev + (" ("@ + piece@ + seq![')']));
            }
            q
        },
        CmdClass::Font => upto_char_exec(s, p, '\\'),
        CmdClass::Setup => skip_args_exec(s, p),
        CmdClass::Cite => {
            let q = if p < s.len() && s[p] == '[' {
                proof {
                    lemma_scans(s@, (p + 1) as nat, ']');
                }
                past_char_exec(s, p + 1, ']')
            } else {
                p
            };
            proof {
                lemma_read_braced(s@, q as nat);
            }
            let (c, q2) = read_braced_from_chars(s, q);
            if let Some(c) = c {
                let ghost prev = out@;
                out.push('[');
                push_all(out, c.as_slice());
                out.push(']');
                assert(out@ =~= prev + (seq!['['] + c@ + seq![']']));
            }
            q2
        },
        CmdClass::Href => {
            let (url, q1) = read_braced_from_chars(s, p);
            proof {
                lemma_read_braced(s@, q1 as nat);
            }
            let (txt, q2) = read_braced_from_chars(s, q1);
            let ghost prev = out@;
            match (txt, url) {
                (Some(t), Some(u)) => {
                    let piece = process_line(t.as_slice());
                    push_all(out, piece.as_slice());
                    text::push_str(out, " (");
                    push_all(out, u.as_slice());
                    out.push(')');
                    assert(out@ =~= prev + (piece@ + " ("@ + u@ + seq![')']));
                },
                (Some(t), None) => {
                    let piece = process_line(t.as_slice());
                    push_all(out, piece.as_slice());
                },
                (None, Some(u)) => {
                    push_all(out, u.as_slice());
                },
                (None, None) => {
                    assert(out@ =~= prev + Seq::<char>::empty());
                },
            }
            q2
        },
        CmdClass::Symbol(ch) => {
            let q = if p < s.len() && s[p] == '{' {
                let (_c, q) = read_braced_from_chars(s, p);
                q
            } else {
                p
            };
            out.push(ch);
            q
        },
        CmdClass::Silent => {
            assert(out@ =~= out@ + Seq::<char>::empty());
            p
        },
        CmdClass::Unknown => {
            if p < s.len() && s[p] == '{' {
                let (c, q) = read_braced_from_chars(s, p);
                if let Some(c) = c {
                    let piece = process_line(c.as_slice());
                    push_all(out, piece.as_slice());
                }
                q
            } else {
                assert(out@ =~= out@ + Seq::<char>::empty());
                p
            }
        },
    }
}

/// Processes a line of LaTeX: commands rendered, inline math kept as written.
pub fn process_line(s: &[char]) -> (r: Vec<char>)
    ensures
        r@ == spec_process_line(s@),
    decreases s@.len(), 1int,
{
    let mut out: Vec<char> = Vec::new();
    let mut i: usize = 0;
    let n = s.len();
    while i < n
        invariant
            i <= n == s@.len(),
            out@ + process_from(s@, i as nat) == spec_process_line(s@),
        decreases n - i,
    {
        let ghost prev = out@;
        if s[i] == '\\' {
            proof {
                lemma_scans(s@, (i + 1) as nat, '\\');
            }
            let e = alpha_end_exec(s, i + 1);
            let name = text::slice_vec(s, i + 1, e);
            let k = classify(name.as_slice());
            proof {
                lemma_cmd_next(s@, k, e as nat);
            }
            let j = process_command(s, k, e, &mut out);
            assert(out@ + process_from(s@, j as nat) =~= prev + process_from(s@, i as nat));
            i = j;
        } else if s[i] == '$' {
            proof {
                lemma_scans(s@, (i + 1) as nat, '$');
            }
            let j = past_char_exec(s, i + 1, '$');
            let piece = text::slice_vec(s, i, j);
            push_all(&mut out, piece.as_slice());
            assert(out@ + process_from(s@, j as nat) =~= prev + process_from(s@, i as nat));
            i = j;
        } else {
            out.push(s[i]);
            assert(out@ + process_from(s@, (i + 1) as nat) =~= prev + process_from(s@, i as nat));
            i = i + 1;
        }
    }
    assert(out@ =~= out@ + process_from(s@, i as nat));
    out
}

} // verus!
