//! MDX: imports, exports, JSX component tags and expression lines stripped so
//! that what remains is standard Markdown.

use vstd::prelude::*;
use crate::text;
use crate::text::{chars_string, lines_exec, push_all, push_str, starts_with_str, str_chars, trim_vec};
use crate::plugins::{ExtractorInfo, InfoView, KreuzbergError, VERSION, make_info, str_views};
use crate::latex::commands::eq_str;

verus! {

/// JSX component tags: capitalised opening, closing and self-closing tags.
pub const JSX_TAG_PATTERN: &'static str = r"</?[A-Z][a-zA-Z0-9_.]*(?:\s[^>]*)?>|<[A-Z][a-zA-Z0-9_.]*(?:\s[^>]*)?\s*/>";

/// Lines that are a standalone JSX expression such as `{expression}`.
pub const JSX_EXPR_LINE_PATTERN: &'static str = r"^\s*\{.*\}\s*$";

/// Inline JSX comments such as `{/* ... */}`.
pub const JSX_INLINE_COMMENT_PATTERN: &'static str = r"\s*\{/\*.*?\*/\}";

/// What `regex::Regex::new(pattern)` followed by `is_match(text)` gives: `None` when
/// the pattern does not compile.
pub uninterp spec fn regex_is_match(pattern: Seq<char>, text: Seq<char>) -> Option<bool>;

/// What `regex::Regex::new(pattern)` followed by `replace_all(text, "")` gives: `None`
/// when the pattern does not compile.
pub uninterp spec fn regex_removed(pattern: Seq<char>, text: Seq<char>) -> Option<Seq<char>>;

/// What `regex::Regex::new(pattern)` followed by `find_iter(text)` yields, each match
/// as a string: `None` when the pattern does not compile.
pub uninterp spec fn regex_matches(pattern: Seq<char>, text: Seq<char>) -> Option<Seq<Seq<char>>>;

/// Compiles `pattern` with `regex::Regex::new` and calls `Regex::is_match` on `text`;
/// the result is named `regex_is_match(pattern, text)`.
#[verifier::external_body]
fn regex_match(pattern: &str, text: &str) -> (r: Option<bool>)
    ensures
        r == regex_is_match(pattern@, text@),
{
    match regex::Regex::new(pattern) {
        Ok(re) => Some(re.is_match(text)),
        Err(_) => None,
    }
}

/// Compiles `pattern` with `regex::Regex::new` and calls `Regex::replace_all` on `text`
/// with an empty replacement; the result is named `regex_removed(pattern, text)`.
#[verifier::external_body]
fn regex_remove(pattern: &str, text: &str) -> (r: Option<String>)
    ensures
        match regex_removed(pattern@, text@) {
            Some(x) => r matches Some(y) && y@ == x,
            None => r is None,
        },
{
    match regex::Regex::new(pattern) {
        Ok(re) => Some(re.replace_all(text, "").into_owned()),
        Err(_) => None,
    }
}

/// Compiles `pattern` with `regex::Regex::new` and collects `Regex::find_iter` on
/// `text` as strings; the result is named `regex_matches(pattern, text)`.
#[verifier::external_body]
fn regex_find_all(pattern: &str, text: &str) -> (r: Option<Vec<String>>)
    ensures
        match regex_matches(pattern@, text@) {
            Some(x) => r matches Some(y) && crate::types::strs(y@) == x,
            None => r is None,
        },
{
    match regex::Regex::new(pattern) {
        Ok(re) => Some(re.find_iter(text).map(|m| m.as_str().to_string()).collect()),
        Err(_) => None,
    }
}

/// `{` counted up and `}` down.
pub open spec fn brace_balance(s: Seq<char>) -> int
    decreases s.len(),
{
    if s.len() == 0 {
        0
    } else {
        brace_balance(s.drop_last()) + if s.last() == '{' {
            1int
        } else if s.last() == '}' {
            -1int
        } else {
            0int
        }
    }
}

/// The balance never exceeds the length.
pub proof fn lemma_brace_balance_bound(s: Seq<char>)
    ensures
        -s.len() <= brace_balance(s) <= s.len(),
    decreases s.len(),
{
    if s.len() > 0 {
        lemma_brace_balance_bound(s.drop_last());
    }
}

/// Net brace depth change in a line: opening `{` minus closing `}`.
pub fn count_braces(line: &str) -> (r: i32)
    requires
        line@.len() <= i32::MAX,
    ensures
        r == brace_balance(line@),
{
    let s = str_chars(line);
    count_braces_chars(s.as_slice())
}

/// Net brace depth change in characters.
pub fn count_braces_chars(s: &[char]) -> (r: i32)
    requires
        s@.len() <= i32::MAX,
    ensures
        r == brace_balance(s@),
{
    let mut depth: i32 = 0;
    let mut k: usize = 0;
    while k < s.len()
        invariant
            k <= s@.len() <= i32::MAX,
            depth == brace_balance(s@.take(k as int)),
        decreases s@.len() - k,
    {
        proof {
            assert(s@.take(k + 1).drop_last() =~= s@.take(k as int));
            lemma_brace_balance_bound(s@.take(k as int));
        }
        if s[k] == '{' {
            depth = depth + 1;
        } else if s[k] == '}' {
            depth = depth - 1;
        }
        k = k + 1;
    }
    assert(s@.take(k as int) =~= s@);
    depth
}

/// A line that starts an `import` or `export` statement.
pub open spec fn is_statement(t: Seq<char>, kw: Seq<char>) -> bool {
    text::starts_with(t, kw + " "@) || t == kw
}

/// Stripping from line `i` on: `in_fence` inside a code fence, `skip` the open
/// brace depth of an import or export statement being skipped.
pub open spec fn mdx_from(ls: Seq<Seq<char>>, i: nat, in_fence: bool, skip: int, out: Seq<char>, blocks: Seq<Seq<char>>) -> (
    Seq<char>,
    Seq<Seq<char>>,
)
    decreases ls.len() - i,
{
    if i >= ls.len() {
        (out, blocks)
    } else {
        let line = ls[i as int];
        let t = text::trim(line);
        if text::starts_with(t, "```"@) {
            mdx_from(ls, i + 1, !in_fence, skip, out + line + "\n"@, blocks)
        } else if in_fence {
            mdx_from(ls, i + 1, in_fence, skip, out + line + "\n"@, blocks)
        } else if skip > 0 {
            let d = skip + brace_balance(t);
            mdx_from(ls, i + 1, in_fence, if d <= 0 { 0 } else { d }, out, blocks)
        } else if is_statement(t, "import"@) || is_statement(t, "export"@) {
            let d = brace_balance(t);
            mdx_from(ls, i + 1, in_fence, if d > 0 { d } else { skip }, out, blocks)
        } else if regex_is_match(JSX_EXPR_LINE_PATTERN@, t) == Some(true) {
            mdx_from(ls, i + 1, in_fence, skip, out, blocks)
        } else {
            let wc = match regex_removed(JSX_INLINE_COMMENT_PATTERN@, line) {
                Some(x) => x,
                None => line,
            };
            let processed = match regex_removed(JSX_TAG_PATTERN@, wc) {
                Some(x) => x,
                None => wc,
            };
            if text::trim(processed).len() == 0 && t.len() > 0 {
                let found = match regex_matches(JSX_TAG_PATTERN@, wc) {
                    Some(m) => m,
                    None => seq![],
                };
                mdx_from(ls, i + 1, in_fence, skip, out, blocks + found)
            } else {
                mdx_from(ls, i + 1, in_fence, skip, out + processed + "\n"@, blocks)
            }
        }
    }
}

/// `content` with MDX syntax stripped, and the JSX tags of lines that held nothing
/// else.
pub open spec fn spec_strip_mdx(content: Seq<char>) -> (Seq<char>, Seq<Seq<char>>) {
    mdx_from(text::lines(content), 0, false, 0, seq![], seq![])
}

/// A line without MDX syntax: no code fence, no `import` or `export`
/// statement, not a standalone expression, and nothing that the comment and tag
/// patterns remove.
pub open spec fn plain_markdown_line(l: Seq<char>) -> bool {
    let t = text::trim(l);
    &&& !text::starts_with(t, "```"@)
    &&& !is_statement(t, "import"@)
    &&& !is_statement(t, "export"@)
    &&& regex_is_match(JSX_EXPR_LINE_PATTERN@, t) == Some(false)
    &&& regex_removed(JSX_INLINE_COMMENT_PATTERN@, l) == Some(l)
    &&& regex_removed(JSX_TAG_PATTERN@, l) == Some(l)
}

/// Lines, each ended by a line break.
pub open spec fn newline_ended(ls: Seq<Seq<char>>) -> Seq<char>
    decreases ls.len(),
{
    if ls.len() == 0 {
        seq![]
    } else {
        ls[0] + "\n"@ + newline_ended(ls.drop_first())
    }
}

proof fn lemma_plain_from(ls: Seq<Seq<char>>, i: nat, out: Seq<char>)
    requires
        i <= ls.len(),
        forall|j: int| 0 <= j < ls.len() ==> plain_markdown_line(#[trigger] ls[j]),
    ensures
        mdx_from(ls, i, false, 0, out, seq![]) == (out + newline_ended(ls.skip(i as int)), Seq::<Seq<char>>::empty()),
    decreases ls.len() - i,
{
    if i < ls.len() {
        let line = ls[i as int];
        assert(plain_markdown_line(line));
        lemma_plain_from(ls, i + 1, out + line + "\n"@);
        assert(ls.skip(i as int)[0] == line);
        assert(ls.skip(i as int).drop_first() =~= ls.skip(i + 1int));
        assert(out + line + "\n"@ + newline_ended(ls.skip(i + 1int)) =~= out + newline_ended(ls.skip(i as int)));
    } else {
        assert(ls.skip(i as int) =~= Seq::<Seq<char>>::empty());
        assert(out + Seq::<char>::empty() =~= out);
    }
}

/// Markdown without MDX syntax comes out of the stripper as it went in, line by
/// line, each line (blank ones included) ended by a line break, and no JSX
/// block is collected.
pub proof fn lemma_plain_markdown_unchanged(content: Seq<char>)
    requires
        forall|j: int| 0 <= j < text::lines(content).len() ==> plain_markdown_line(#[trigger] text::lines(content)[j]),
    ensures
        spec_strip_mdx(content).0 == newline_ended(text::lines(content)),
        spec_strip_mdx(content).1.len() == 0,
{
    let ls = text::lines(content);
    lemma_plain_from(ls, 0, seq![]);
    assert(ls.skip(0) =~= ls);
    assert(Seq::<char>::empty() + newline_ended(ls) =~= newline_ended(ls));
}

/// A one-line `import` or `export` statement (it opens no brace block) that is
/// not a code fence.
pub open spec fn one_line_statement(l: Seq<char>) -> bool {
    let t = text::trim(l);
    &&& !text::starts_with(t, "```"@)
    &&& (is_statement(t, "import"@) || is_statement(t, "export"@))
    &&& brace_balance(t) <= 0
}

/// The lines without MDX syntax, each ended by a line break; the others left out.
pub open spec fn plain_lines_ended(ls: Seq<Seq<char>>) -> Seq<char>
    decreases ls.len(),
{
    if ls.len() == 0 {
        seq![]
    } else {
        (if plain_markdown_line(ls[0]) {
            ls[0] + "\n"@
        } else {
            seq![]
        }) + plain_lines_ended(ls.drop_first())
    }
}

proof fn lemma_statements_from(ls: Seq<Seq<char>>, i: nat, out: Seq<char>)
    requires
        i <= ls.len(),
        forall|j: int| 0 <= j < ls.len() ==> plain_markdown_line(#[trigger] ls[j]) || one_line_statement(ls[j]),
    ensures
        mdx_from(ls, i, false, 0, out, seq![]) == (out + plain_lines_ended(ls.skip(i as int)), Seq::<Seq<char>>::empty()),
    decreases ls.len() - i,
{
    if i < ls.len() {
        let line = ls[i as int];
        assert(plain_markdown_line(line) || one_line_statement(line));
        assert(ls.skip(i as int)[0] == line);
        assert(ls.skip(i as int).drop_first() =~= ls.skip(i + 1int));
        if plain_markdown_line(line) {
            lemma_statements_from(ls, i + 1, out + line + "\n"@);
            assert(out + line + "\n"@ + plain_lines_ended(ls.skip(i + 1int)) =~= out + plain_lines_ended(ls.skip(i as int)));
        } else {
            lemma_statements_from(ls, i + 1, out);
            assert(out + plain_lines_ended(ls.skip(i + 1int)) =~= out + plain_lines_ended(ls.skip(i as int)));
        }
    } else {
        assert(ls.skip(i as int) =~= Seq::<Seq<char>>::empty());
        assert(out + Seq::<char>::empty() =~= out);
    }
}

/// Among lines without MDX syntax, one-line `import` and `export` statements are
/// dropped and every other line (blank ones included) is kept as it is, in
/// order, each ended by a line break.
pub proof fn lemma_statements_dropped(content: Seq<char>)
    requires
        forall|j: int|
            0 <= j < text::lines(content).len() ==> plain_markdown_line(#[trigger] text::lines(content)[j])
                || one_line_statement(text::lines(content)[j]),
    ensures
        spec_strip_mdx(content).0 == plain_lines_ended(text::lines(content)),
        spec_strip_mdx(content).1.len() == 0,
{
    let ls = text::lines(content);
    lemma_statements_from(ls, 0, seq![]);
    assert(ls.skip(0) =~= ls);
    assert(Seq::<char>::empty() + plain_lines_ended(ls) =~= plain_lines_ended(ls));
}

/// Whether `t` starts an `import`/`export` statement with keyword `kw`.
fn is_statement_exec(t: &[char], kw: &str) -> (r: bool)
    ensures
        r == is_statement(t@, kw@),
{
    let mut p = str_chars(kw);
    push_str(&mut p, " ");
    text::starts_with_exec(t, p.as_slice()) || eq_str(t, kw)
}

/// Total length of lines.
pub open spec fn lines_len(ls: Seq<Seq<char>>) -> nat
    decreases ls.len(),
{
    if ls.len() == 0 {
        0
    } else {
        ls[0].len() + lines_len(ls.drop_first())
    }
}

/// The lines of a text are no longer than the text.
pub proof fn lemma_lines_len(s: Seq<char>)
    ensures
        lines_len(text::lines(s)) <= s.len(),
    decreases s.len(),
{
    if s.len() > 0 {
        text::lemma_find_char_some(s, '\n');
        if let Some(k) = text::find_char(s, '\n') {
            lemma_lines_len(s.skip(k as int + 1));
            let l = text::strip_cr(s.take(k as int));
            let rest = text::lines(s.skip(k as int + 1));
            assert(text::lines(s) == seq![l] + rest);
            assert((seq![l] + rest).drop_first() =~= rest);
            assert((seq![l] + rest)[0] == l);
            assert(l.len() <= k);
            assert(lines_len(seq![l] + rest) == l.len() + lines_len(rest));
        } else {
            assert(text::lines(s) == seq![s]);
            assert(seq![s].drop_first() =~= Seq::<Seq<char>>::empty());
            assert(lines_len(seq![s]) == s.len() + lines_len(Seq::<Seq<char>>::empty()));
        }
    }
}

/// Trimming does not lengthen a text.
pub proof fn lemma_trim_len(s: Seq<char>)
    ensures
        text::trim(s).len() <= s.len(),
{
    lemma_trim_start_len(s);
    lemma_trim_end_len(text::trim_start(s));
}

proof fn lemma_trim_start_len(s: Seq<char>)
    ensures
        text::trim_start(s).len() <= s.len(),
    decreases s.len(),
{
    if s.len() > 0 && text::is_ws(s[0]) {
        lemma_trim_start_len(s.drop_first());
    }
}

proof fn lemma_trim_end_len(s: Seq<char>)
    ensures
        text::trim_end(s).len() <= s.len(),
    decreases s.len(),
{
    if s.len() > 0 && text::is_ws(s.last()) {
        lemma_trim_end_len(s.drop_last());
    }
}

impl MdxExtractor {
    /// Strips MDX syntax, and gathers the JSX tags of the lines that held nothing
    /// else: imports and exports (with multi-line brace blocks), standalone
    /// expression lines, inline JSX comments and capitalised component tags go;
    /// code fences, HTML tags and Markdown stay.
    pub fn strip_mdx_syntax_collecting(content: &str) -> (r: (String, Vec<String>))
        requires
            content@.len() <= i32::MAX,
        ensures
            (r.0@, crate::types::strs(r.1@)) == spec_strip_mdx(content@),
    {
        let c = str_chars(content);
        let ls = lines_exec(c.as_slice());
        let ghost lv = text::views(ls@);
        proof {
            lemma_lines_len(c@);
            assert(lv.skip(0) =~= lv);
        }
        let mut out: Vec<char> = Vec::new();
        let mut blocks: Vec<String> = Vec::new();
        let mut in_fence = false;
        let mut skip: i32 = 0;
        let mut i: usize = 0;
        assert(crate::types::strs(blocks@) =~= Seq::<Seq<char>>::empty());
        while i < ls.len()
            invariant
                i <= ls@.len(),
                lv == text::views(ls@),
                lines_len(lv) <= i32::MAX,
                0 <= skip,
                skip + lines_len(lv.skip(i as int)) <= lines_len(lv),
                spec_strip_mdx(content@) == mdx_from(lv, i as nat, in_fence, skip as int, out@, crate::types::strs(blocks@)),
                lv == text::lines(content@),
            decreases ls@.len() - i,
        {
            let line = ls[i].as_slice();
            assert(line@ == lv[i as int]);
            assert(lv.skip(i as int).drop_first() =~= lv.skip(i + 1));
            let t = trim_vec(line);
            proof {
                lemma_trim_len(line@);
                lemma_brace_balance_bound(t@);
            }
            let ghost ob = crate::types::strs(blocks@);
            if starts_with_str(t.as_slice(), "```") {
                in_fence = !in_fence;
                push_all(&mut out, line);
                push_str(&mut out, "\n");
            } else if in_fence {
                push_all(&mut out, line);
                push_str(&mut out, "\n");
            } else if skip > 0 {
                let d = skip + count_braces_chars(t.as_slice());
                skip = if d <= 0 { 0 } else { d };
            } else if is_statement_exec(t.as_slice(), "import") || is_statement_exec(t.as_slice(), "export") {
                let d = count_braces_chars(t.as_slice());
                if d > 0 {
                    skip = d;
                }
            } else {
                let ts = chars_string(t.as_slice());
                let is_expr = regex_match(JSX_EXPR_LINE_PATTERN, ts.as_str());
                if is_expr == Some(true) {
                } else {
                    let ls_str = chars_string(line);
                    let wc = match regex_remove(JSX_INLINE_COMMENT_PATTERN, ls_str.as_str()) {
                        Some(x) => x,
                        None => ls_str,
                    };
                    let processed = match regex_remove(JSX_TAG_PATTERN, wc.as_str()) {
                        Some(x) => x,
                        None => wc.clone(),
                    };
                    let pc = str_chars(processed.as_str());
                    let pt = trim_vec(pc.as_slice());
                    if pt.len() == 0 && t.len() > 0 {
                        match regex_find_all(JSX_TAG_PATTERN, wc.as_str()) {
                            Some(found) => {
                                let mut cl = found;
                                let ghost b0 = blocks@;
                                let ghost c0 = cl@;
                                blocks.append(&mut cl);
                                assert(crate::types::strs(blocks@) =~= crate::types::strs(b0) + crate::types::strs(c0));
                            },
                            None => {
                                assert(ob + Seq::<Seq<char>>::empty() =~= ob);
                            },
                        }
                    } else {
                        push_all(&mut out, pc.as_slice());
                        push_str(&mut out, "\n");
                    }
                }
            }
            i = i + 1;
        }
        let mut bl: Vec<String> = Vec::new();
        std::mem::swap(&mut bl, &mut blocks);
        (chars_string(out.as_slice()), bl)
    }

    /// Strips MDX-specific syntax from content, keeping standard Markdown.
    pub fn strip_mdx_syntax(content: &str) -> (r: String)
        requires
            content@.len() <= i32::MAX,
        ensures
            r@ == spec_strip_mdx(content@).0,
    {
        let (s, _blocks) = Self::strip_mdx_syntax_collecting(content);
        s
    }
}

/// MDX extractor: MDX-specific syntax stripped, the rest handled as Markdown.
pub struct MdxExtractor;
impl Default for MdxExtractor {
    fn default() -> (r: Self)
        ensures
            r == MdxExtractor,
    {
        MdxExtractor
    }
}
impl MdxExtractor {
    /// A new extractor.
    pub fn new() -> (r: Self)
        ensures
            r == MdxExtractor,
    {
        MdxExtractor
    }

    /// The extractor's name.
    pub fn name(&self) -> (r: &'static str)
        ensures
            r@ == "mdx-extractor"@,
    {
        "mdx-extractor"
    }

    /// The library version.
    pub fn version(&self) -> (r: String)
        ensures
            r@ == VERSION@,
    {
        VERSION.to_owned()
    }

    /// Prepares the extractor; nothing can fail.
    pub fn initialize(&self) -> (r: Result<(), KreuzbergError>)
        ensures
            r is Ok,
    {
        Ok(())
    }

    /// Releases the extractor; nothing can fail.
    pub fn shutdown(&self) -> (r: Result<(), KreuzbergError>)
        ensures
            r is Ok,
    {
        Ok(())
    }

    /// What the extractor does.
    pub fn description(&self) -> (r: &'static str)
        ensures
            r@ == "Extracts content from MDX files by stripping JSX syntax and processing as Markdown"@,
    {
        "Extracts content from MDX files by stripping JSX syntax and processing as Markdown"
    }

    /// Who wrote the extractor.
    pub fn author(&self) -> (r: &'static str)
        ensures
            r@ == "Kreuzberg Team"@,
    {
        "Kreuzberg Team"
    }

    /// The MIME types the extractor handles.
    pub fn supported_mime_types(&self) -> (r: Vec<&'static str>)
        ensures
            str_views(r@) == seq!["text/mdx"@, "text/x-mdx"@],
    {
        let mut v: Vec<&'static str> = Vec::new();
        v.push("text/mdx");
        v.push("text/x-mdx");
        assert(str_views(v@) =~= seq!["text/mdx"@, "text/x-mdx"@]);
        v
    }

    /// The extractor's priority among those handling the same MIME type.
    pub fn priority(&self) -> (r: i32)
        ensures
            r == 50,
    {
        50
    }

    /// The description the registry keeps of this extractor.
    pub open spec fn descriptor() -> InfoView {
        InfoView { name: "mdx-extractor"@, priority: 50, mime_types: seq!["text/mdx"@, "text/x-mdx"@] }
    }

    /// The description the registry keeps.
    pub fn info(&self) -> (r: ExtractorInfo)
        ensures
            r@ == Self::descriptor(),
    {
        let m = self.supported_mime_types();
        make_info(self.name(), self.priority(), m.as_slice())
    }
}

} // verus!
