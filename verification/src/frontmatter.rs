//! Frontmatter and metadata helpers shared by the markup extractors: the YAML
//! frontmatter block, the first level-one heading and Markdown tables.

use vstd::prelude::*;
use crate::text;
use crate::text::{chars_string, find_char_from, lines_exec, starts_with_str, str_chars, trim_vec};
use crate::types::{rows_view, strs, opt_str, opt_strs, empty_metadata, pairs_view, Metadata, MetadataView};
use crate::markdown_table::{table_markdown_with_header, table_md_with_header};

verus! {

/// A table as Markdown: the first row as header, a separator row, then the rest.
pub fn cells_to_markdown(cells: &[Vec<String>]) -> (r: String)
    ensures
        r@ == table_md_with_header(rows_view(cells@)),
{
    let md = table_markdown_with_header(cells);
    chars_string(md.as_slice())
}

/// The text of the first line that starts with `# `, trimmed.
pub open spec fn first_heading(ls: Seq<Seq<char>>) -> Option<Seq<char>>
    decreases ls.len(),
{
    if ls.len() == 0 {
        None
    } else if text::starts_with(ls[0], "# "@) {
        Some(text::trim(ls[0].skip(2)))
    } else {
        first_heading(ls.drop_first())
    }
}

/// The first level-one heading (`# Title`) of `content`, trimmed, as a title.
pub fn extract_title_from_content(content: &str) -> (r: Option<String>)
    ensures
        r matches Some(t) ==> first_heading(text::lines(content@)) == Some(t@),
        r is None ==> first_heading(text::lines(content@)) is None,
{
    let c = str_chars(content);
    let ls = lines_exec(c.as_slice());
    let ghost lv = text::views(ls@);
    let mut k: usize = 0;
    assert(lv.skip(0) =~= lv);
    while k < ls.len()
        invariant
            k <= ls@.len(),
            lv == text::views(ls@),
            lv == text::lines(content@),
            first_heading(lv) == first_heading(lv.skip(k as int)),
        decreases ls@.len() - k,
    {
        let line = ls[k].as_slice();
        assert(lv.skip(k as int)[0] == line@);
        assert(lv.skip(k as int).drop_first() =~= lv.skip(k + 1));
        if starts_with_str(line, "# ") {
            proof {
                reveal_strlit("# ");
            }
            let rest = text::slice_vec(line, 2, line.len());
            assert(rest@ == line@.skip(2));
            let t = trim_vec(rest.as_slice());
            return Some(chars_string(t.as_slice()));
        }
        k = k + 1;
    }
    None
}

/// Where the closing `---` or `...` line of a frontmatter block begins in `rest`
/// (the text after the opening `---`), searching from the line ending at or after
/// `from`: the position of the line ending before it.
pub open spec fn closing_from(rest: Seq<char>, from: nat) -> Option<nat>
    decreases rest.len() - from,
{
    if from > rest.len() {
        None
    } else {
        match text::find_char(rest.skip(from as int), '\n') {
            None => None,
            Some(p) => {
                let a = from + p;
                let after = a + 1;
                if after >= rest.len() {
                    None
                } else if (text::starts_with(rest.skip(after as int), "---"@) || text::starts_with(
                    rest.skip(after as int),
                    "..."@,
                )) && (after + 3 >= rest.len() || rest[after + 3int] == '\n') {
                    Some(a)
                } else {
                    proof {
                        text::lemma_find_char_some(rest.skip(from as int), '\n');
                    }
                    closing_from(rest, after)
                }
            },
        }
    }
}

/// Where the text after the closing delimiter line begins.
pub open spec fn body_start(rest: Seq<char>, end: nat) -> nat {
    let after_delimiter = end + 1;
    if after_delimiter + 3 < rest.len() {
        let after = after_delimiter + 3;
        if after < rest.len() && rest[after as int] == '\n' {
            after + 1
        } else {
            after
        }
    } else {
        rest.len()
    }
}

/// The frontmatter block of `content` and the text after it: `content` starts
/// with `---`, and a later line is `---` or `...` alone (or at the very end).
pub open spec fn frontmatter_parts(content: Seq<char>) -> Option<(Seq<char>, Seq<char>)> {
    if !text::starts_with(content, "---"@) {
        None
    } else {
        let rest = content.skip(3);
        match closing_from(rest, 0) {
            None => None,
            Some(end) => Some((rest.take(end as int), rest.skip(body_start(rest, end) as int))),
        }
    }
}

/// Splits `content` into its frontmatter block and the text after it; `None`
/// when it has no complete block.
pub fn split_frontmatter(content: &str) -> (r: Option<(String, String)>)
    ensures
        r matches Some(p) ==> frontmatter_parts(content@) == Some((p.0@, p.1@)),
        r is None ==> frontmatter_parts(content@) is None,
{
    let c = str_chars(content);
    if !starts_with_str(c.as_slice(), "---") {
        return None;
    }
    proof {
        reveal_strlit("---");
    }
    let rest = text::slice_vec(c.as_slice(), 3, c.len());
    assert(rest@ == content@.skip(3));
    let ghost rv = rest@;
    let n = rest.len();
    let mut from: usize = 0;
    let mut end: Option<usize> = None;
    while from <= n
        invariant_except_break
            from <= n + 1,
            n == rv.len(),
            rv == rest@,
            closing_from(rv, 0) == closing_from(rv, from as nat),
            end is None,
        ensures
            n == rv.len(),
            rv == rest@,
            end matches Some(e) ==> closing_from(rv, 0) == Some(e as nat) && e < n,
            end is None ==> closing_from(rv, 0) is None,
        decreases n + 1 - from,
    {
        match find_char_from(rest.as_slice(), '\n', from) {
            None => {
                break;
            },
            Some(a) => {
                let after = a + 1;
                if after >= n {
                    break;
                }
                let tail = text::slice_vec(rest.as_slice(), after, n);
                assert(tail@ == rv.skip(after as int));
                let opens = starts_with_str(tail.as_slice(), "---") || starts_with_str(
                    tail.as_slice(),
                    "...",
                );
                if opens && (n - after <= 3 || rest[after + 3] == '\n') {
                    end = Some(a);
                    break;
                }
                proof {
                    text::lemma_find_char_some(rv.skip(from as int), '\n');
                }
                from = after;
            },
        }
    }
    match end {
        None => None,
        Some(e) => {
            let front = text::slice_vec(rest.as_slice(), 0, e);
            let ad = e + 1;
            let start = if n - ad > 3 {
                let after = ad + 3;
                if after < n && rest[after] == '\n' {
                    after + 1
                } else {
                    after
                }
            } else {
                n
            };
            let back = text::slice_vec(rest.as_slice(), start, n);
            assert(front@ == rv.take(e as int));
            assert(back@ == rv.skip(start as int));
            Some((chars_string(front.as_slice()), chars_string(back.as_slice())))
        },
    }
}


// ---------------------------------------------------------------------------
// YAML front matter to metadata
// ---------------------------------------------------------------------------

/// A YAML value: null, a boolean, a number (by its text), a string, a sequence,
/// a mapping (its entries in order), or a value under a tag.
#[derive(Debug)]
pub enum YamlValue {
    Null,
    Bool(bool),
    Number(String),
    String(String),
    Sequence(Vec<YamlValue>),
    Mapping(Vec<(YamlValue, YamlValue)>),
    Tagged(String, Box<YamlValue>),
}

/// The value under all its tags.
pub open spec fn untagged(v: YamlValue) -> YamlValue
    decreases v,
{
    match v {
        YamlValue::Tagged(_, b) => untagged(*b),
        _ => v,
    }
}

/// The string a value is, under its tags (`Value::as_str`).
pub open spec fn yaml_str(v: YamlValue) -> Option<Seq<char>> {
    match untagged(v) {
        YamlValue::String(s) => Some(s@),
        _ => None,
    }
}

/// The value of the entry whose key is the string `key` (keys are unique).
pub open spec fn entry_value(m: Seq<(YamlValue, YamlValue)>, key: Seq<char>) -> Option<YamlValue>
    decreases m.len(),
{
    if m.len() == 0 {
        None
    } else {
        match m[0].0 {
            YamlValue::String(k) => if k@ == key {
                Some(m[0].1)
            } else {
                entry_value(m.drop_first(), key)
            },
            _ => entry_value(m.drop_first(), key),
        }
    }
}

/// `v[key]` for a mapping under its tags (`Value::get` with a string).
pub open spec fn yaml_get(v: YamlValue, key: Seq<char>) -> Option<YamlValue> {
    match untagged(v) {
        YamlValue::Mapping(m) => entry_value(m@, key),
        _ => None,
    }
}

/// The string at `key`.
pub open spec fn field_str(yaml: YamlValue, key: Seq<char>) -> Option<Seq<char>> {
    match yaml_get(yaml, key) {
        Some(v) => yaml_str(v),
        None => None,
    }
}

/// The strings among `items`, in order.
pub open spec fn item_strs(items: Seq<YamlValue>) -> Seq<Seq<char>>
    decreases items.len(),
{
    if items.len() == 0 {
        seq![]
    } else {
        item_strs(items.drop_last()) + match yaml_str(items.last()) {
            Some(s) => seq![s],
            None => seq![],
        }
    }
}

/// Each part trimmed.
pub open spec fn trimmed(ps: Seq<Seq<char>>) -> Seq<Seq<char>> {
    ps.map_values(|p: Seq<char>| text::trim(p))
}

/// A list at `key`: a string split at commas with each part trimmed, or the
/// strings of a sequence.
pub open spec fn field_list(yaml: YamlValue, key: Seq<char>) -> Option<Seq<Seq<char>>> {
    match yaml_get(yaml, key) {
        Some(YamlValue::String(s)) => Some(trimmed(text::split_char(s@, ','))),
        Some(YamlValue::Sequence(items)) => Some(item_strs(items@)),
        _ => None,
    }
}

/// The metadata front matter gives: title, author (creator), date (creation),
/// keywords, subject (else description), abstract, category, tags, language and
/// version.
pub open spec fn spec_yaml_metadata(yaml: YamlValue) -> MetadataView {
    MetadataView {
        title: field_str(yaml, "title"@),
        created_by: field_str(yaml, "author"@),
        created_at: field_str(yaml, "date"@),
        keywords: field_list(yaml, "keywords"@),
        subject: match field_str(yaml, "subject"@) {
            Some(s) => Some(s),
            None => field_str(yaml, "description"@),
        },
        abstract_text: field_str(yaml, "abstract"@),
        category: field_str(yaml, "category"@),
        tags: field_list(yaml, "tags"@),
        language: field_str(yaml, "language"@),
        document_version: field_str(yaml, "version"@),
        ..empty_metadata()
    }
}

/// The value under all its tags.
fn untag_ref(v: &YamlValue) -> (r: &YamlValue)
    ensures
        *r == untagged(*v),
    decreases v,
{
    match v {
        YamlValue::Tagged(_, b) => untag_ref(&**b),
        _ => v,
    }
}

/// `v[key]`.
fn yaml_get_exec<'a>(v: &'a YamlValue, key: &str) -> (r: Option<&'a YamlValue>)
    ensures
        r matches Some(x) ==> yaml_get(*v, key@) == Some(*x),
        r is None ==> yaml_get(*v, key@) is None,
{
    let u = untag_ref(v);
    match u {
        YamlValue::Mapping(m) => {
            assert(yaml_get(*v, key@) == entry_value(m@, key@));
            let mut k: usize = 0;
            assert(m@.skip(0) =~= m@);
            while k < m.len()
                invariant
                    k <= m@.len(),
                    entry_value(m@, key@) == entry_value(m@.skip(k as int), key@),
                    yaml_get(*v, key@) == entry_value(m@, key@),
                decreases m@.len() - k,
            {
                assert(m@.skip(k as int)[0] == m@[k as int]);
                assert(m@.skip(k as int).drop_first() =~= m@.skip(k + 1int));
                match &m[k].0 {
                    YamlValue::String(s) => {
                        if text::str_eq(s.as_str(), key) {
                            assert(m@.skip(k as int)[0].0 == YamlValue::String(*s));
                            assert(entry_value(m@.skip(k as int), key@) == Some(m@[k as int].1));
                            return Some(&m[k].1);
                        }
                    },
                    _ => {},
                }
                k = k + 1;
            }
            None
        },
        _ => None,
    }
}

/// The string a value is, under its tags.
fn yaml_str_exec(v: &YamlValue) -> (r: Option<String>)
    ensures
        opt_str(r) == yaml_str(*v),
{
    match untag_ref(v) {
        YamlValue::String(s) => Some(s.clone()),
        _ => None,
    }
}

/// The string at `key`.
fn field_str_exec(yaml: &YamlValue, key: &str) -> (r: Option<String>)
    ensures
        opt_str(r) == field_str(*yaml, key@),
{
    match yaml_get_exec(yaml, key) {
        Some(v) => yaml_str_exec(v),
        None => None,
    }
}

/// The list at `key`.
fn field_list_exec(yaml: &YamlValue, key: &str) -> (r: Option<Vec<String>>)
    ensures
        opt_strs(r) == field_list(*yaml, key@),
{
    match yaml_get_exec(yaml, key) {
        Some(YamlValue::String(s)) => {
            let sc = str_chars(s.as_str());
            let parts = text::split_char_exec(sc.as_slice(), ',');
            let ghost ps = text::views(parts@);
            let mut out: Vec<String> = Vec::new();
            let mut k: usize = 0;
            while k < parts.len()
                invariant
                    k <= parts@.len(),
                    ps == text::views(parts@),
                    strs(out@) == trimmed(ps.take(k as int)),
                decreases parts@.len() - k,
            {
                let t = trim_vec(parts[k].as_slice());
                let ghost before = strs(out@);
                out.push(chars_string(t.as_slice()));
                assert(strs(out@) =~= before.push(t@));
                assert(trimmed(ps.take(k + 1)) =~= trimmed(ps.take(k as int)).push(text::trim(ps[k as int])));
                k = k + 1;
            }
            assert(ps.take(parts@.len() as int) =~= ps);
            Some(out)
        },
        Some(YamlValue::Sequence(items)) => {
            let mut out: Vec<String> = Vec::new();
            let mut k: usize = 0;
            assert(items@.take(0) =~= Seq::<YamlValue>::empty());
            while k < items.len()
                invariant
                    k <= items@.len(),
                    strs(out@) == item_strs(items@.take(k as int)),
                decreases items@.len() - k,
            {
                assert(items@.take(k + 1).drop_last() =~= items@.take(k as int));
                let ghost before = strs(out@);
                match yaml_str_exec(&items[k]) {
                    Some(x) => {
                        let ghost xv = x@;
                        out.push(x);
                        assert(strs(out@) =~= before + seq![xv]);
                    },
                    None => {
                        assert(before + Seq::<Seq<char>>::empty() =~= before);
                    },
                }
                k = k + 1;
            }
            assert(items@.take(items@.len() as int) =~= items@);
            Some(out)
        },
        _ => None,
    }
}

/// The metadata of parsed YAML front matter.
pub fn extract_metadata_from_yaml(yaml: &YamlValue) -> (r: Metadata)
    ensures
        r@ == spec_yaml_metadata(*yaml),
{
    let mut m = Metadata::new();
    m.title = field_str_exec(yaml, "title");
    m.created_by = field_str_exec(yaml, "author");
    m.created_at = field_str_exec(yaml, "date");
    m.keywords = field_list_exec(yaml, "keywords");
    m.subject = field_str_exec(yaml, "description");
    m.abstract_text = field_str_exec(yaml, "abstract");
    match field_str_exec(yaml, "subject") {
        Some(s) => {
            m.subject = Some(s);
        },
        None => {},
    }
    m.category = field_str_exec(yaml, "category");
    m.tags = field_list_exec(yaml, "tags");
    m.language = field_str_exec(yaml, "language");
    m.document_version = field_str_exec(yaml, "version");
    m
}

/// The front matter of `content` once its block has been parsed: the parsed
/// value and the text after the block; without a block, or when the block did
/// not parse (`parsed` is `None`), nothing and the whole content.
pub fn frontmatter_from_parsed(content: &str, parsed: Option<YamlValue>) -> (r: (Option<YamlValue>, String))
    ensures
        match (frontmatter_parts(content@), parsed) {
            (Some((_, rest)), Some(_)) => r.0 == parsed && r.1@ == rest,
            _ => r.0 is None && r.1@ == content@,
        },
{
    match (split_frontmatter(content), parsed) {
        (Some((_front, back)), Some(v)) => (Some(v), back),
        _ => (None, content.to_owned()),
    }
}

/// A value parsed by `serde_yaml_ng`, read through the functions below.
#[verifier::external_type_specification]
#[verifier::external_body]
pub struct ExSerdeYamlValue(serde_yaml_ng::Value);

/// The kind of a parsed YAML value, with its scalar where it has one.
pub enum YamlShape {
    Null,
    Bool(bool),
    Number(String),
    String(String),
    Sequence,
    Mapping,
    Tagged(String),
}

/// Tells the variants of `serde_yaml_ng::Value` apart; a number is written by
/// its `Display` impl, a tag by that of `serde_yaml_ng::value::Tag`.
#[verifier::external_body]
fn yaml_shape(v: &serde_yaml_ng::Value) -> YamlShape {
    match v {
        serde_yaml_ng::Value::Null => YamlShape::Null,
        serde_yaml_ng::Value::Bool(b) => YamlShape::Bool(*b),
        serde_yaml_ng::Value::Number(n) => YamlShape::Number(n.to_string()),
        serde_yaml_ng::Value::String(t) => YamlShape::String(t.clone()),
        serde_yaml_ng::Value::Sequence(_) => YamlShape::Sequence,
        serde_yaml_ng::Value::Mapping(_) => YamlShape::Mapping,
        serde_yaml_ng::Value::Tagged(t) => YamlShape::Tagged(t.tag.to_string()),
    }
}

/// The items of a `serde_yaml_ng::Value::Sequence`, in order; none for other values.
#[verifier::external_body]
fn yaml_items(v: &serde_yaml_ng::Value) -> Vec<serde_yaml_ng::Value> {
    match v {
        serde_yaml_ng::Value::Sequence(items) => items.clone(),
        _ => Vec::new(),
    }
}

/// The entries of a `serde_yaml_ng::Mapping`, in order; none for other values.
#[verifier::external_body]
fn yaml_members(v: &serde_yaml_ng::Value) -> Vec<(serde_yaml_ng::Value, serde_yaml_ng::Value)> {
    match v {
        serde_yaml_ng::Value::Mapping(m) => m.iter().map(|(k, x)| (k.clone(), x.clone())).collect(),
        _ => Vec::new(),
    }
}

/// The value under the tag of a `serde_yaml_ng::Value::Tagged`.
#[verifier::external_body]
fn yaml_untag(v: &serde_yaml_ng::Value) -> Option<serde_yaml_ng::Value> {
    match v {
        serde_yaml_ng::Value::Tagged(t) => Some(t.value.clone()),
        _ => None,
    }
}

/// A parsed YAML value in the library's form; `depth` bounds how deep the walk
/// goes (a YAML text does not nest deeper than its length).
fn yaml_tree(v: &serde_yaml_ng::Value, depth: usize) -> YamlValue
    decreases depth,
{
    match yaml_shape(v) {
        YamlShape::Null => YamlValue::Null,
        YamlShape::Bool(b) => YamlValue::Bool(b),
        YamlShape::Number(n) => YamlValue::Number(n),
        YamlShape::String(t) => YamlValue::String(t),
        YamlShape::Sequence => {
            let items = yaml_items(v);
            let mut out: Vec<YamlValue> = Vec::new();
            let mut k: usize = 0;
            while depth > 0 && k < items.len()
                decreases items.len() - k,
            {
                out.push(yaml_tree(&items[k], depth - 1));
                k = k + 1;
            }
            YamlValue::Sequence(out)
        },
        YamlShape::Mapping => {
            let members = yaml_members(v);
            let mut out: Vec<(YamlValue, YamlValue)> = Vec::new();
            let mut k: usize = 0;
            while depth > 0 && k < members.len()
                decreases members.len() - k,
            {
                let key = yaml_tree(&members[k].0, depth - 1);
                let value = yaml_tree(&members[k].1, depth - 1);
                out.push((key, value));
                k = k + 1;
            }
            YamlValue::Mapping(out)
        },
        YamlShape::Tagged(tag) => {
            let inner = match yaml_untag(v) {
                Some(x) => if depth > 0 {
                    yaml_tree(&x, depth - 1)
                } else {
                    YamlValue::Null
                },
                None => YamlValue::Null,
            };
            YamlValue::Tagged(tag, Box::new(inner))
        },
    }
}

/// What `serde_yaml_ng::from_str::<serde_yaml_ng::Value>` reads from `text`, in
/// the library's form; `None` where `text` is not valid YAML.
pub uninterp spec fn yaml_parsed(text: Seq<char>) -> Option<YamlValue>;

/// `serde_yaml_ng::from_str::<serde_yaml_ng::Value>`: the value that `text`
/// holds in the library's form, or `None` where it is not valid YAML. The claim
/// is that the result depends on the text alone.
#[verifier::external_body]
fn yaml_from_str(text: &str) -> (r: Option<YamlValue>)
    ensures
        r == yaml_parsed(text@),
{
    serde_yaml_ng::from_str::<serde_yaml_ng::Value>(text).ok().map(|v| yaml_tree(&v, text.len()))
}

/// YAML text parsed; `None` where it is not valid YAML.
pub fn parse_yaml(text: &str) -> (r: Option<YamlValue>)
    ensures
        r == yaml_parsed(text@),
{
    yaml_from_str(text)
}

/// The front matter of `content`: its block parsed as YAML and the text after
/// the block; without a block, or when the block is not valid YAML, nothing and
/// the whole content.
pub fn extract_frontmatter(content: &str) -> (r: (Option<YamlValue>, String))
    ensures
        match frontmatter_parts(content@) {
            Some((block, rest)) => match yaml_parsed(block) {
                Some(v) => r.0 == Some(v) && r.1@ == rest,
                None => r.0 is None && r.1@ == content@,
            },
            None => r.0 is None && r.1@ == content@,
        },
{
    let parsed = match split_frontmatter(content) {
        Some((block, _rest)) => parse_yaml(block.as_str()),
        None => None,
    };
    frontmatter_from_parsed(content, parsed)
}


/// The metadata of a Markdown document: that of its front matter (none without
/// one), with the first level-one heading of the text after it as title when the
/// front matter gives none.
pub open spec fn spec_document_metadata(yaml: Option<YamlValue>, remaining: Seq<char>) -> MetadataView {
    let m = match yaml {
        Some(y) => spec_yaml_metadata(y),
        None => empty_metadata(),
    };
    if m.title is None {
        MetadataView { title: first_heading(text::lines(remaining)), ..m }
    } else {
        m
    }
}

/// The metadata of a Markdown document from its parsed front matter and the text
/// after it.
pub fn document_metadata(yaml: &Option<YamlValue>, remaining: &str) -> (r: Metadata)
    ensures
        r@ == spec_document_metadata(*yaml, remaining@),
{
    let mut m = match yaml {
        Some(y) => extract_metadata_from_yaml(y),
        None => Metadata::new(),
    };
    if m.title.is_none() {
        m.title = extract_title_from_content(remaining);
    }
    m
}

/// The parts a split gives back: the content starts with `---` and the block,
/// and ends with the text after it.
pub proof fn lemma_frontmatter_parts(content: Seq<char>)
    ensures
        frontmatter_parts(content) matches Some((front, rest)) ==> content.take(3 + front.len() as int) == "---"@ + front
            && rest.len() <= content.len() && content.skip(content.len() - rest.len()) == rest,
{
    if let Some((front, rest)) = frontmatter_parts(content) {
        let r = content.skip(3);
        let end = closing_from(r, 0)->0;
        lemma_closing_from(r, 0);
        reveal_strlit("---");
        assert(content.take(3 + front.len() as int) =~= "---"@ + front);
        let bs = body_start(r, end);
        assert(bs <= r.len());
        assert(content.skip(content.len() - rest.len()) =~= rest);
    }
}

/// A closing delimiter lies within the text.
proof fn lemma_closing_from(rest: Seq<char>, from: nat)
    ensures
        closing_from(rest, from) matches Some(a) ==> a < rest.len(),
    decreases rest.len() - from,
{
    if from <= rest.len() {
        match text::find_char(rest.skip(from as int), '\n') {
            None => {},
            Some(p) => {
                text::lemma_find_char_some(rest.skip(from as int), '\n');
                let a = from + p;
                let after = a + 1;
                if after < rest.len() {
                    lemma_closing_from(rest, after);
                }
            },
        }
    }
}


/// The entries of a front matter mapping for a document's metadata block:
/// each member whose key is a string (under its tags), in order, with the
/// value's text when the value is itself a string, and `None` where it is
/// another value, whose text the YAML crate's `Debug` rendering gives.
pub open spec fn entries_from(m: Seq<(YamlValue, YamlValue)>) -> Seq<(Seq<char>, Option<Seq<char>>)>
    decreases m.len(),
{
    if m.len() == 0 {
        seq![]
    } else {
        entries_from(m.drop_last()) + match yaml_str(m.last().0) {
            Some(k) => seq![(k, match m.last().1 {
                YamlValue::String(s) => Some(s@),
                _ => None,
            })],
            None => seq![],
        }
    }
}

/// The metadata block entries of parsed front matter: those of a mapping,
/// nothing for any other value or no front matter.
pub open spec fn spec_frontmatter_entries(yaml: Option<YamlValue>) -> Seq<(Seq<char>, Option<Seq<char>>)> {
    match yaml {
        Some(YamlValue::Mapping(m)) => entries_from(m@),
        _ => seq![],
    }
}

/// The views of entries.
pub open spec fn entries_view(v: Seq<(String, Option<String>)>) -> Seq<(Seq<char>, Option<Seq<char>>)> {
    v.map_values(|p: (String, Option<String>)| (p.0@, opt_str(p.1)))
}

/// The metadata block entries of parsed front matter: the members of a mapping
/// whose keys are strings, each with its value's text where the value is a
/// string (`None` where the value must be rendered).
pub fn frontmatter_entries(yaml: &Option<YamlValue>) -> (r: Vec<(String, Option<String>)>)
    ensures
        entries_view(r@) == spec_frontmatter_entries(*yaml),
{
    let mut r: Vec<(String, Option<String>)> = Vec::new();
    match yaml {
        Some(YamlValue::Mapping(m)) => {
            let mut k: usize = 0;
            assert(m@.take(0) =~= Seq::<(YamlValue, YamlValue)>::empty());
            assert(entries_view(r@) =~= Seq::<(Seq<char>, Option<Seq<char>>)>::empty());
            while k < m.len()
                invariant
                    k <= m@.len(),
                    entries_view(r@) == entries_from(m@.take(k as int)),
                decreases m@.len() - k,
            {
                assert(m@.take(k + 1).drop_last() =~= m@.take(k as int));
                let ghost before = entries_view(r@);
                match yaml_str_exec(&m[k].0) {
                    Some(key) => {
                        let v = match &m[k].1 {
                            YamlValue::String(s) => Some(s.clone()),
                            _ => None,
                        };
                        let ghost e = (key@, opt_str(v));
                        r.push((key, v));
                        assert(entries_view(r@) =~= before + seq![e]);
                    },
                    None => {
                        assert(entries_view(r@) =~= before + Seq::<(Seq<char>, Option<Seq<char>>)>::empty());
                    },
                }
                k = k + 1;
            }
            assert(m@.take(k as int) =~= m@);
        },
        _ => {
            assert(entries_view(r@) =~= Seq::<(Seq<char>, Option<Seq<char>>)>::empty());
        },
    }
    r
}


/// The front matter of `content` as `extract_frontmatter` gives it: the parsed
/// block and the text after it, or nothing and the whole content.
pub open spec fn spec_frontmatter(content: Seq<char>) -> (Option<YamlValue>, Seq<char>) {
    match frontmatter_parts(content) {
        Some((block, rest)) => match yaml_parsed(block) {
            Some(v) => (Some(v), rest),
            None => (None, content),
        },
        None => (None, content),
    }
}

/// What `format!("{:?}", v)` writes for the value `v` that `serde_yaml_ng` reads
/// under the string key `key` of the YAML text `block`.
pub uninterp spec fn yaml_debug(block: Seq<char>, key: Seq<char>) -> Seq<char>;

/// `serde_yaml_ng::from_str::<serde_yaml_ng::Value>` and `serde_yaml_ng::Value::get`:
/// the value under `key` in the YAML text `block`, written by its `Debug` impl
/// (empty where there is none). The claim is that the text depends on the two
/// arguments alone.
#[verifier::external_body]
fn yaml_debug_text(block: &str, key: &str) -> (r: String)
    ensures
        r@ == yaml_debug(block@, key@),
{
    match serde_yaml_ng::from_str::<serde_yaml_ng::Value>(block) {
        Ok(v) => v.get(key).map(|x| format!("{x:?}")).unwrap_or_default(),
        Err(_) => String::new(),
    }
}

/// Metadata block entries with their values' text: a string as it is, another
/// value as `serde_yaml_ng` writes it for debugging.
pub open spec fn rendered_entries(block: Seq<char>, es: Seq<(Seq<char>, Option<Seq<char>>)>) -> Seq<(Seq<char>, Seq<char>)> {
    es.map_values(|e: (Seq<char>, Option<Seq<char>>)| (e.0, match e.1 {
        Some(t) => t,
        None => yaml_debug(block, e.0),
    }))
}

/// The metadata block entries of the front matter of `content`: none without a
/// block or when the block is not valid YAML.
pub open spec fn spec_metadata_entries(content: Seq<char>) -> Seq<(Seq<char>, Seq<char>)> {
    match frontmatter_parts(content) {
        Some((block, _)) => rendered_entries(block, spec_frontmatter_entries(spec_frontmatter(content).0)),
        None => seq![],
    }
}

/// The metadata block entries of the front matter of `content`, each value
/// written as text.
pub fn metadata_entries(content: &str) -> (r: Vec<(String, String)>)
    ensures
        pairs_view(r@) == spec_metadata_entries(content@),
{
    let mut out: Vec<(String, String)> = Vec::new();
    match split_frontmatter(content) {
        Some((block, _rest)) => {
            let (yaml, _after) = extract_frontmatter(content);
            let es = frontmatter_entries(&yaml);
            let ghost ev = entries_view(es@);
            let mut k: usize = 0;
            while k < es.len()
                invariant
                    k <= es@.len(),
                    ev == entries_view(es@),
                    pairs_view(out@) == rendered_entries(block@, ev.take(k as int)),
                decreases es@.len() - k,
            {
                let key = es[k].0.clone();
                let text = match &es[k].1 {
                    Some(t) => t.clone(),
                    None => yaml_debug_text(block.as_str(), key.as_str()),
                };
                let ghost before = out@;
                out.push((key, text));
                assert(pairs_view(out@) =~= pairs_view(before).push((key@, text@)));
                assert(ev.take(k + 1) =~= ev.take(k as int).push(ev[k as int]));
                k = k + 1;
            }
            assert(ev.take(ev.len() as int) =~= ev);
        },
        None => {
            assert(pairs_view(out@) =~= Seq::<(Seq<char>, Seq<char>)>::empty());
        },
    }
    out
}
} // verus!
