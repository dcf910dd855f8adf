//! Jupyter notebooks: the extractor's description, the Markdown scanning of
//! cells, the text of cell outputs, and the structured document of a notebook.

use vstd::prelude::*;
use crate::plugins::{ExtractorInfo, InfoView, KreuzbergError, VERSION, make_info, str_views};
use crate::text;
use crate::text::{chars_string, lines_exec, push_all, push_str, slice_vec, str_chars, trim_vec};
use crate::markdown_builder::opt_chars;
use crate::json::{
    JsonValue, JsonView, copy_items, copy_json, extract_source, get_in, get_opt, items_view, json_array, json_get,
    json_str, jview, members_view, opt_val, source_of, json_parsed, json_rendered, json_text, parse_json,
};
use crate::types::{Metadata, MetadataView, empty_metadata};
use crate::types::{AnnView, AnnotationKind, KindView, TextAnnotation, anns_view, opt_str, pairs_view};
use crate::document::{
    add_elem, add_uris, byte_offset, byte_offset_exec, code_elem, empty_doc, link_kind, link_kind_of, plain,
    DocView, ElemView, ElementKind, InternalDocument, InternalElement, UriKind, UriRef, UriView,
};
use crate::markdown_utils::{MdEvent, MdTag, MdTagEnd};
use pulldown_cmark::{Event, Parser, Tag, TagEnd};

verus! {

/// Jupyter notebook extractor: notebook metadata, cells and their outputs.
pub struct JupyterExtractor;
impl Default for JupyterExtractor {
    fn default() -> (r: Self)
        ensures
            r == JupyterExtractor,
    {
        JupyterExtractor
    }
}
impl JupyterExtractor {
    /// A new extractor.
    pub fn new() -> (r: Self)
        ensures
            r == JupyterExtractor,
    {
        JupyterExtractor
    }

    /// The extractor's name.
    pub fn name(&self) -> (r: &'static str)
        ensures
            r@ == "jupyter-extractor"@,
    {
        "jupyter-extractor"
    }

    /// The library version.
    pub fn version(&self) -> (r: String)
        ensures
            r@ == VERSION@,
    {
        VERSION.to_owned()
    }

    /// Prepares the extractor; nothing can fail.
    pub fn initialize(&self) -> (r: Result<(), KreuzbergError>)
        ensures
            r is Ok,
    {
        Ok(())
    }

    /// Releases the extractor; nothing can fail.
    pub fn shutdown(&self) -> (r: Result<(), KreuzbergError>)
        ensures
            r is Ok,
    {
        Ok(())
    }

    /// What the extractor does.
    pub fn description(&self) -> (r: &'static str)
        ensures
            r@ == "Extracts content from Jupyter notebooks (.ipynb files)"@,
    {
        "Extracts content from Jupyter notebooks (.ipynb files)"
    }

    /// Who wrote the extractor.
    pub fn author(&self) -> (r: &'static str)
        ensures
            r@ == "Kreuzberg Team"@,
    {
        "Kreuzberg Team"
    }

    /// The MIME types the extractor handles.
    pub fn supported_mime_types(&self) -> (r: Vec<&'static str>)
        ensures
            str_views(r@) == seq!["application/x-ipynb+json"@],
    {
        let mut v: Vec<&'static str> = Vec::new();
        v.push("application/x-ipynb+json");
        assert(str_views(v@) =~= seq!["application/x-ipynb+json"@]);
        v
    }

    /// The extractor's priority among those handling the same MIME type.
    pub fn priority(&self) -> (r: i32)
        ensures
            r == 50,
    {
        50
    }

    /// The description the registry keeps of this extractor.
    pub open spec fn descriptor() -> InfoView {
        InfoView { name: "jupyter-extractor"@, priority: 50, mime_types: seq!["application/x-ipynb+json"@] }
    }

    /// The description the registry keeps.
    pub fn info(&self) -> (r: ExtractorInfo)
        ensures
            r@ == Self::descriptor(),
    {
        let m = self.supported_mime_types();
        make_info(self.name(), self.priority(), m.as_slice())
    }
}

// ---------------------------------------------------------------------------
// Markdown scanning in cells
// ---------------------------------------------------------------------------

/// The number of leading `#`.
pub open spec fn leading_hashes(t: Seq<char>) -> nat
    decreases t.len(),
{
    if t.len() > 0 && t[0] == '#' {
        1 + leading_hashes(t.drop_first())
    } else {
        0
    }
}

/// An ATX heading line (`#` to `######`, then a space or the end): its level and
/// its trimmed text.
pub open spec fn heading_of(line: Seq<char>) -> Option<(u8, Seq<char>)> {
    let t = text::trim_start(line);
    let h = leading_hashes(t);
    if h == 0 || h > 6 {
        None
    } else {
        let rest = t.skip(h as int);
        if rest.len() > 0 && rest[0] != ' ' {
            None
        } else {
            Some((h as u8, text::trim(rest)))
        }
    }
}

proof fn lemma_leading_hashes(t: Seq<char>)
    ensures
        leading_hashes(t) <= t.len(),
        forall|k: int| 0 <= k < leading_hashes(t) ==> t[k] == '#',
        leading_hashes(t) < t.len() ==> t[leading_hashes(t) as int] != '#',
    decreases t.len(),
{
    if t.len() > 0 && t[0] == '#' {
        lemma_leading_hashes(t.drop_first());
        assert forall|k: int| 0 <= k < leading_hashes(t) implies t[k] == '#' by {
            if k > 0 {
                assert(t[k] == t.drop_first()[k - 1]);
            }
        }
    }
}

/// The first `i` at or after `start` where `d0 d1` occurs.
pub open spec fn pair_from(s: Seq<char>, i: nat, d0: char, d1: char) -> Option<nat>
    decreases s.len() - i,
{
    if i + 1 >= s.len() {
        None
    } else if s[i as int] == d0 && s[i + 1int] == d1 {
        Some(i)
    } else {
        pair_from(s, i + 1, d0, d1)
    }
}

/// The first `i` at or after `start` holding a `*` not followed by another `*`.
pub open spec fn single_star_from(s: Seq<char>, i: nat) -> Option<nat>
    decreases s.len() - i,
{
    if i >= s.len() {
        None
    } else if s[i as int] == '*' && (i + 1 >= s.len() || s[i + 1int] != '*') {
        Some(i)
    } else {
        single_star_from(s, i + 1)
    }
}

impl JupyterExtractor {
    /// An ATX heading line (`# …` to `###### …`): its level and trimmed text.
    pub fn parse_heading_line(line: &str) -> (r: Option<(u8, String)>)
        ensures
            r matches Some((l, t)) ==> heading_of(line@) == Some((l, t@)),
            r is None ==> heading_of(line@) is None,
    {
        let c = str_chars(line);
        let t = text::trim_start_vec(c.as_slice());
        proof {
            lemma_leading_hashes(t@);
        }
        let mut h: usize = 0;
        while h < t.len() && t[h] == '#'
            invariant
                h <= leading_hashes(t@) <= t@.len(),
                forall|k: int| 0 <= k < leading_hashes(t@) ==> t@[k] == '#',
                leading_hashes(t@) < t@.len() ==> t@[leading_hashes(t@) as int] != '#',
            decreases t@.len() - h,
        {
            h = h + 1;
        }
        if h == 0 || h > 6 {
            return None;
        }
        let rest = slice_vec(t.as_slice(), h, t.len());
        if rest.len() > 0 && rest[0] != ' ' {
            return None;
        }
        let tr = text::trim_vec(rest.as_slice());
        Some((h as u8, chars_string(tr.as_slice())))
    }

    /// The position of the first `d0 d1` at or after `start`.
    pub fn find_closing(s: &[char], start: usize, d0: char, d1: char) -> (r: Option<usize>)
        ensures
            r matches Some(k) ==> pair_from(s@, start as nat, d0, d1) == Some(k as nat),
            r is None ==> pair_from(s@, start as nat, d0, d1) is None,
    {
        let mut i = start;
        while i < s.len() && s.len() - i > 1
            invariant
                start <= i,
                pair_from(s@, start as nat, d0, d1) == pair_from(s@, i as nat, d0, d1),
            decreases s@.len() - i,
        {
            if s[i] == d0 && s[i + 1] == d1 {
                return Some(i);
            }
            i = i + 1;
        }
        None
    }

    /// The position of the first `*` at or after `start` that is not followed by
    /// another `*`.
    pub fn find_closing_single_star(s: &[char], start: usize) -> (r: Option<usize>)
        ensures
            r matches Some(k) ==> single_star_from(s@, start as nat) == Some(k as nat),
            r is None ==> single_star_from(s@, start as nat) is None,
    {
        let mut i = start;
        while i < s.len()
            invariant
                start <= i,
                single_star_from(s@, start as nat) == single_star_from(s@, i as nat),
            decreases s@.len() - i,
        {
            if s[i] == '*' && (i + 1 >= s.len() || s[i + 1] != '*') {
                return Some(i);
            }
            i = i + 1;
        }
        None
    }
}


// ---------------------------------------------------------------------------
// Inline Markdown in cells
// ---------------------------------------------------------------------------

/// The first `i` at or after `start` holding `d`.
pub open spec fn char_from(s: Seq<char>, i: nat, d: char) -> Option<nat>
    decreases s.len() - i,
{
    if i >= s.len() {
        None
    } else if s[i as int] == d {
        Some(i)
    } else {
        char_from(s, i + 1, d)
    }
}

/// Where `pair_from` finds the pair, the pair lies within `s`, at or after `i`.
pub proof fn lemma_pair_from(s: Seq<char>, i: nat, d0: char, d1: char)
    ensures
        pair_from(s, i, d0, d1) matches Some(k) ==> i <= k && k + 1 < s.len(),
    decreases s.len() - i,
{
    if i + 1 < s.len() && !(s[i as int] == d0 && s[i + 1int] == d1) {
        lemma_pair_from(s, i + 1, d0, d1);
    }
}

/// Where `single_star_from` finds a star, it lies within `s`, at or after `i`.
pub proof fn lemma_single_star_from(s: Seq<char>, i: nat)
    ensures
        single_star_from(s, i) matches Some(k) ==> i <= k < s.len(),
    decreases s.len() - i,
{
    if i < s.len() && !(s[i as int] == '*' && (i + 1 >= s.len() || s[i + 1int] != '*')) {
        lemma_single_star_from(s, i + 1);
    }
}

/// Where `char_from` finds `d`, it lies within `s`, at or after `i`.
pub proof fn lemma_char_from(s: Seq<char>, i: nat, d: char)
    ensures
        char_from(s, i, d) matches Some(k) ==> i <= k < s.len(),
    decreases s.len() - i,
{
    if i < s.len() && s[i as int] != d {
        lemma_char_from(s, i + 1, d);
    }
}

/// The UTF-8 bytes of `c`, each taken as the character of that code (what
/// `byte as char` gives for each byte of `c`).
pub open spec fn byte_chars(c: char) -> Seq<char> {
    let v = c as u32;
    if v < 0x80 {
        seq![c]
    } else if v < 0x800 {
        seq![(0xC0 + v / 64) as char, (0x80 + v % 64) as char]
    } else if v < 0x10000 {
        seq![(0xE0 + v / 4096) as char, (0x80 + (v / 64) % 64) as char, (0x80 + v % 64) as char]
    } else {
        seq![
            (0xF0 + v / 262144) as char,
            (0x80 + (v / 4096) % 64) as char,
            (0x80 + (v / 64) % 64) as char,
            (0x80 + v % 64) as char,
        ]
    }
}

/// The text and annotations of `s` scanned from `i`, after `out` and `anns`:
/// `**bold**`, `*italic*` (a single star not next to another) and `` `code` ``
/// lose their markers and annotate their inner text, at byte offsets of the
/// output; any other character is copied byte by byte, each byte as a
/// character.
pub open spec fn scan_from(s: Seq<char>, i: nat, out: Seq<char>, anns: Seq<AnnView>) -> (Seq<char>, Seq<AnnView>)
    decreases s.len() - i,
{
    if i >= s.len() {
        (out, anns)
    } else {
        let bold = if i + 1 < s.len() && s[i as int] == '*' && s[i + 1int] == '*' {
            pair_from(s, i + 2, '*', '*')
        } else {
            None
        };
        match bold {
            Some(end) => {
                proof {
                    lemma_pair_from(s, i + 2, '*', '*');
                }
                let o2 = out + s.subrange(i + 2int, end as int);
                scan_from(
                    s,
                    end + 2,
                    o2,
                    anns.push(AnnView { start: byte_offset(out), end: byte_offset(o2), kind: KindView::Bold }),
                )
            },
            None => {
                let italic = if s[i as int] == '*' && (i == 0 || s[i - 1] != '*') && i + 1 < s.len() && s[i + 1int]
                    != '*' {
                    single_star_from(s, i + 1)
                } else {
                    None
                };
                match italic {
                    Some(end) => {
                        proof {
                            lemma_single_star_from(s, i + 1);
                        }
                        let o2 = out + s.subrange(i + 1int, end as int);
                        scan_from(
                            s,
                            end + 1,
                            o2,
                            anns.push(AnnView { start: byte_offset(out), end: byte_offset(o2), kind: KindView::Italic }),
                        )
                    },
                    None => {
                        let code = if s[i as int] == '`' && (i + 1 >= s.len() || s[i + 1int] != '`') {
                            char_from(s, i + 1, '`')
                        } else {
                            None
                        };
                        match code {
                            Some(end) => {
                                proof {
                                    lemma_char_from(s, i + 1, '`');
                                }
                                let o2 = out + s.subrange(i + 1int, end as int);
                                scan_from(
                                    s,
                                    end + 1,
                                    o2,
                                    anns.push(
                                        AnnView { start: byte_offset(out), end: byte_offset(o2), kind: KindView::Code },
                                    ),
                                )
                            },
                            None => scan_from(s, i + 1, out + byte_chars(s[i as int]), anns),
                        }
                    },
                }
            },
        }
    }
}

/// The text and annotations inline Markdown gives.
pub open spec fn spec_scan_inline(s: Seq<char>) -> (Seq<char>, Seq<AnnView>) {
    scan_from(s, 0, seq![], seq![])
}

/// Appends the UTF-8 bytes of `c`, each as a character.
fn push_byte_chars(out: &mut Vec<char>, c: char)
    ensures
        final(out)@ == old(out)@ + byte_chars(c),
{
    let v = c as u32;
    if v < 0x80 {
        out.push(c);
    } else if v < 0x800 {
        out.push(((0xC0 + v / 64) as u8) as char);
        out.push(((0x80 + v % 64) as u8) as char);
    } else if v < 0x10000 {
        out.push(((0xE0 + v / 4096) as u8) as char);
        out.push(((0x80 + (v / 64) % 64) as u8) as char);
        out.push(((0x80 + v % 64) as u8) as char);
    } else {
        out.push(((0xF0 + v / 262144) as u8) as char);
        out.push(((0x80 + (v / 4096) % 64) as u8) as char);
        out.push(((0x80 + (v / 64) % 64) as u8) as char);
        out.push(((0x80 + v % 64) as u8) as char);
    }
}

/// The first position at or after `start` holding `d`.
fn find_char_at(s: &[char], start: usize, d: char) -> (r: Option<usize>)
    ensures
        r matches Some(k) ==> char_from(s@, start as nat, d) == Some(k as nat),
        r is None ==> char_from(s@, start as nat, d) is None,
{
    let mut i = start;
    while i < s.len()
        invariant
            start <= i,
            char_from(s@, start as nat, d) == char_from(s@, i as nat, d),
        decreases s@.len() - i,
    {
        if s[i] == d {
            return Some(i);
        }
        i = i + 1;
    }
    None
}

impl JupyterExtractor {
    /// Inline Markdown of a cell: `**bold**`, `*italic*` and `` `code` `` lose
    /// their markers and annotate their text; other characters are copied byte
    /// by byte, each byte as a character.
    pub fn scan_markdown_inline(text: &str) -> (r: (String, Vec<TextAnnotation>))
        ensures
            (r.0@, anns_view(r.1@)) == spec_scan_inline(text@),
    {
        let s = str_chars(text);
        let mut out: Vec<char> = Vec::new();
        let mut anns: Vec<TextAnnotation> = Vec::new();
        let mut i: usize = 0;
        assert(anns_view(anns@) =~= Seq::<AnnView>::empty());
        while i < s.len()
            invariant
                i <= s@.len(),
                s@ == text@,
                spec_scan_inline(s@) == scan_from(s@, i as nat, out@, anns_view(anns@)),
            decreases s@.len() - i,
        {
            if i + 1 < s.len() && s[i] == '*' && s[i + 1] == '*' {
                proof {
                    lemma_pair_from(s@, (i + 2) as nat, '*', '*');
                }
                match Self::find_closing(s.as_slice(), i + 2, '*', '*') {
                    Some(end) => {
                        let start = byte_offset_exec(out.as_slice());
                        let inner = slice_vec(s.as_slice(), i + 2, end);
                        push_all(&mut out, inner.as_slice());
                        let e = byte_offset_exec(out.as_slice());
                        let ghost before = anns_view(anns@);
                        anns.push(TextAnnotation { start, end: e, kind: AnnotationKind::Bold });
                        assert(anns_view(anns@) =~= before.push(AnnView { start, end: e, kind: KindView::Bold }));
                        i = end + 2;
                        continue;
                    },
                    None => {},
                }
            }
            if s[i] == '*' && (i == 0 || s[i - 1] != '*') && i + 1 < s.len() && s[i + 1] != '*' {
                proof {
                    lemma_single_star_from(s@, (i + 1) as nat);
                }
                match Self::find_closing_single_star(s.as_slice(), i + 1) {
                    Some(end) => {
                        let start = byte_offset_exec(out.as_slice());
                        let inner = slice_vec(s.as_slice(), i + 1, end);
                        push_all(&mut out, inner.as_slice());
                        let e = byte_offset_exec(out.as_slice());
                        let ghost before = anns_view(anns@);
                        anns.push(TextAnnotation { start, end: e, kind: AnnotationKind::Italic });
                        assert(anns_view(anns@) =~= before.push(AnnView { start, end: e, kind: KindView::Italic }));
                        i = end + 1;
                        continue;
                    },
                    None => {},
                }
            }
            if s[i] == '`' && (i + 1 >= s.len() || s[i + 1] != '`') {
                proof {
                    lemma_char_from(s@, (i + 1) as nat, '`');
                }
                match find_char_at(s.as_slice(), i + 1, '`') {
                    Some(end) => {
                        let start = byte_offset_exec(out.as_slice());
                        let inner = slice_vec(s.as_slice(), i + 1, end);
                        push_all(&mut out, inner.as_slice());
                        let e = byte_offset_exec(out.as_slice());
                        let ghost before = anns_view(anns@);
                        anns.push(TextAnnotation { start, end: e, kind: AnnotationKind::Code });
                        assert(anns_view(anns@) =~= before.push(AnnView { start, end: e, kind: KindView::Code }));
                        i = end + 1;
                        continue;
                    },
                    None => {},
                }
            }
            push_byte_chars(&mut out, s[i]);
            i = i + 1;
        }
        (chars_string(out.as_slice()), anns)
    }
}


// ---------------------------------------------------------------------------
// Links of Markdown cells
// ---------------------------------------------------------------------------

/// The events `pulldown_cmark::Parser::new` (no extensions) reports for `text`,
/// reduced to what link collection reads: link starts with their destination,
/// image starts with theirs, text, and link and image ends; every other event
/// is `Other`.
pub uninterp spec fn cmark_link_events(text: Seq<char>) -> Seq<MdEvent>;

/// Parses `text` as CommonMark with `pulldown_cmark::Parser::new` and reports
/// its link, image and text events. What the parser reports is not stated
/// here: the result is named `cmark_link_events` of the text.
#[verifier::external_body]
fn link_events(text: &str) -> (r: Vec<MdEvent>)
    ensures
        r@ == cmark_link_events(text@),
{
    Parser::new(text).map(|e| match e {
        Event::Start(Tag::Link { dest_url, .. }) => MdEvent::Start(MdTag::Link(dest_url.to_string(), String::new())),
        Event::Start(Tag::Image { dest_url, .. }) => MdEvent::Start(MdTag::Image(dest_url.to_string())),
        Event::Text(t) => MdEvent::Text(t.to_string()),
        Event::End(TagEnd::Link) => MdEvent::End(MdTagEnd::Link),
        Event::End(TagEnd::Image) => MdEvent::End(MdTagEnd::Image),
        _ => MdEvent::Other,
    }).collect()
}

/// Link collection so far: the URIs found, the text of the open link or image,
/// its destination, and whether a link or an image is open.
pub struct LinkState {
    pub uris: Seq<UriView>,
    pub label: Seq<char>,
    pub url: Option<Seq<char>>,
    pub in_link: bool,
    pub in_image: bool,
}

/// The URIs after closing a link or image of `kind`: one more when it has a
/// destination, labelled by its text when that is not empty.
pub open spec fn close_link(st: LinkState, image: bool) -> Seq<UriView> {
    match st.url {
        Some(u) => if u.len() > 0 {
            st.uris.push(
                UriView {
                    url: u,
                    label: if st.label.len() == 0 {
                        None
                    } else {
                        Some(st.label)
                    },
                    kind: if image {
                        UriKind::Image
                    } else {
                        link_kind(u)
                    },
                },
            )
        } else {
            st.uris
        },
        None => st.uris,
    }
}

/// What one event does to link collection.
pub open spec fn link_step(st: LinkState, e: MdEvent) -> LinkState {
    match e {
        MdEvent::Start(MdTag::Link(url, _)) => LinkState { in_link: true, label: seq![], url: Some(url@), ..st },
        MdEvent::Start(MdTag::Image(url)) => LinkState { in_image: true, label: seq![], url: Some(url@), ..st },
        MdEvent::Text(t) => if st.in_link || st.in_image {
            LinkState { label: st.label + t@, ..st }
        } else {
            st
        },
        MdEvent::End(MdTagEnd::Link) => LinkState {
            uris: close_link(st, false),
            url: None,
            in_link: false,
            label: seq![],
            ..st
        },
        MdEvent::End(MdTagEnd::Image) => LinkState {
            uris: close_link(st, true),
            url: None,
            in_image: false,
            label: seq![],
            ..st
        },
        _ => st,
    }
}

/// Link collection after `events`.
pub open spec fn link_fold(events: Seq<MdEvent>) -> LinkState
    decreases events.len(),
{
    if events.len() == 0 {
        LinkState { uris: seq![], label: seq![], url: None, in_link: false, in_image: false }
    } else {
        link_step(link_fold(events.drop_last()), events.last())
    }
}

/// The URIs of the links and images of Markdown text, with their text as label.
pub open spec fn spec_markdown_links(text: Seq<char>) -> Seq<UriView> {
    link_fold(cmark_link_events(text)).uris
}

impl JupyterExtractor {
    /// The links (`[text](url)`) and images (`![alt](url)`) of Markdown text as
    /// URIs, labelled by their text; those without a destination are left out.
    pub fn extract_markdown_links(text: &str) -> (r: Vec<UriRef>)
        ensures
            r@.map_values(|u: UriRef| u@) == spec_markdown_links(text@),
    {
        let events = link_events(text);
        let mut uris: Vec<UriRef> = Vec::new();
        let mut label: Vec<char> = Vec::new();
        let mut url: Option<Vec<char>> = None;
        let mut in_link = false;
        let mut in_image = false;
        let mut k: usize = 0;
        assert(events@.take(0) =~= Seq::<MdEvent>::empty());
        assert(uris@.map_values(|u: UriRef| u@) =~= Seq::<UriView>::empty());
        while k < events.len()
            invariant
                k <= events@.len(),
                events@ == cmark_link_events(text@),
                link_fold(events@.take(k as int)) == (LinkState {
                    uris: uris@.map_values(|u: UriRef| u@),
                    label: label@,
                    url: match url {
                        Some(u) => Some(u@),
                        None => None,
                    },
                    in_link,
                    in_image,
                }),
            decreases events@.len() - k,
        {
            assert(events@.take(k + 1).drop_last() =~= events@.take(k as int));
            match &events[k] {
                MdEvent::Start(MdTag::Link(u, _)) => {
                    in_link = true;
                    label = Vec::new();
                    url = Some(str_chars(u.as_str()));
                },
                MdEvent::Start(MdTag::Image(u)) => {
                    in_image = true;
                    label = Vec::new();
                    url = Some(str_chars(u.as_str()));
                },
                MdEvent::Text(t) => {
                    if in_link || in_image {
                        let tc = str_chars(t.as_str());
                        push_all(&mut label, tc.as_slice());
                    }
                },
                MdEvent::End(MdTagEnd::Link) | MdEvent::End(MdTagEnd::Image) => {
                    let image = match &events[k] {
                        MdEvent::End(MdTagEnd::Image) => true,
                        _ => false,
                    };
                    let mut taken: Option<Vec<char>> = None;
                    std::mem::swap(&mut taken, &mut url);
                    match taken {
                        Some(u) => {
                            if u.len() > 0 {
                                let kind = if image {
                                    UriKind::Image
                                } else {
                                    link_kind_of(u.as_slice())
                                };
                                let l = if label.len() == 0 {
                                    None
                                } else {
                                    Some(chars_string(label.as_slice()))
                                };
                                let ghost before = uris@.map_values(|x: UriRef| x@);
                                let uri = UriRef { url: chars_string(u.as_slice()), label: l, kind };
                                let ghost uv = uri@;
                                uris.push(uri);
                                assert(uris@.map_values(|x: UriRef| x@) =~= before.push(uv));
                            }
                        },
                        None => {},
                    }
                    if image {
                        in_image = false;
                    } else {
                        in_link = false;
                    }
                    label = Vec::new();
                },
                _ => {},
            }
            k = k + 1;
        }
        assert(events@.take(k as int) =~= events@);
        uris
    }
}


// ---------------------------------------------------------------------------
// Notebook documents
// ---------------------------------------------------------------------------

/// The text of `v` when it is a string, else `d`.
pub open spec fn str_or(v: Option<JsonValue>, d: Seq<char>) -> Seq<char> {
    match json_str(v) {
        Some(s) => s,
        None => d,
    }
}

/// The `text/plain` text of a cell output: a stream's text, a result's or
/// display's `text/plain` data, or `Error (name): value` for an error.
pub open spec fn spec_output_text(output: JsonValue) -> Seq<char> {
    let ot = str_or(json_get(output, "output_type"@), seq![]);
    if ot == "stream"@ {
        match json_get(output, "text"@) {
            Some(t) => source_of(t),
            None => seq![],
        }
    } else if ot == "execute_result"@ || ot == "display_data"@ {
        match get_in(json_get(output, "data"@), "text/plain"@) {
            Some(p) => source_of(p),
            None => seq![],
        }
    } else if ot == "error"@ {
        "Error ("@ + str_or(json_get(output, "ename"@), "Unknown"@) + "): "@ + str_or(json_get(output, "evalue"@), seq![])
    } else {
        seq![]
    }
}

/// The language of code cells: the kernel's language, else the language info's
/// name.
pub open spec fn kernel_language(nb: JsonValue) -> Option<Seq<char>> {
    match json_str(get_in(get_in(json_get(nb, "metadata"@), "kernelspec"@), "language"@)) {
        Some(l) => Some(l),
        None => json_str(get_in(get_in(json_get(nb, "metadata"@), "language_info"@), "name"@)),
    }
}

/// A paragraph of inline Markdown, its markers stripped and annotated.
pub open spec fn inline_para(t: Seq<char>) -> ElemView {
    ElemView {
        kind: ElementKind::Paragraph,
        text: spec_scan_inline(t).0,
        anns: spec_scan_inline(t).1,
        attrs: seq![],
        cells: seq![],
        anchor: None,
    }
}

/// `d` with the gathered paragraph lines added, when their trimmed text is not
/// empty.
pub open spec fn flush_para(d: DocView, buf: Seq<char>) -> DocView {
    let f = text::trim(buf);
    if f.len() > 0 {
        add_elem(d, inline_para(f))
    } else {
        d
    }
}

/// The lines of a Markdown cell: headings as they come, the lines between them
/// gathered into paragraphs; the document and the lines gathered so far.
pub open spec fn md_cell_lines(d: DocView, ls: Seq<Seq<char>>) -> (DocView, Seq<char>)
    decreases ls.len(),
{
    if ls.len() == 0 {
        (d, seq![])
    } else {
        let (d1, buf) = md_cell_lines(d, ls.drop_last());
        let line = ls.last();
        match heading_of(line) {
            Some((level, ht)) => {
                let d2 = flush_para(d1, buf);
                (
                    if ht.len() > 0 {
                        add_elem(d2, plain(ElementKind::Heading { level }, ht))
                    } else {
                        d2
                    },
                    seq![],
                )
            },
            None => (d1, if buf.len() > 0 {
                buf + "\n"@ + line
            } else {
                line
            }),
        }
    }
}

/// A Markdown cell: the URIs of its links, then its headings and paragraphs.
pub open spec fn markdown_cell(d: DocView, t: Seq<char>) -> DocView {
    let (d1, buf) = md_cell_lines(add_uris(d, spec_markdown_links(t)), text::lines(t));
    flush_para(d1, buf)
}

/// The strings among `items`.
pub open spec fn str_items(items: Seq<JsonValue>) -> Seq<Seq<char>>
    decreases items.len(),
{
    if items.len() == 0 {
        seq![]
    } else {
        str_items(items.drop_last()) + match items.last() {
            JsonValue::String(s) => seq![s@],
            _ => seq![],
        }
    }
}

/// `parts` joined with commas.
pub open spec fn comma_join(parts: Seq<Seq<char>>) -> Seq<char>
    decreases parts.len(),
{
    if parts.len() == 0 {
        seq![]
    } else if parts.len() == 1 {
        parts[0]
    } else {
        comma_join(parts.drop_last()) + ","@ + parts.last()
    }
}

/// A code cell's attributes: its execution count (a number's text, or `null`)
/// and its tags joined with commas, when it has any.
pub open spec fn code_attrs(cell: JsonValue) -> Seq<(Seq<char>, Seq<char>)> {
    (match json_get(cell, "execution_count"@) {
        Some(JsonValue::Number(n)) => seq![("execution_count"@, n@)],
        Some(JsonValue::Null) => seq![("execution_count"@, "null"@)],
        _ => seq![],
    }) + match json_array(get_in(json_get(cell, "metadata"@), "tags"@)) {
        Some(items) => if items.len() > 0 {
            seq![("tags"@, comma_join(str_items(items)))]
        } else {
            seq![]
        },
        None => seq![],
    }
}

/// The paragraphs of a code cell's outputs, those whose text is not blank.
pub open spec fn outputs_doc(d: DocView, outs: Seq<JsonValue>) -> DocView
    decreases outs.len(),
{
    if outs.len() == 0 {
        d
    } else {
        let d1 = outputs_doc(d, outs.drop_last());
        let t = text::trim(spec_output_text(outs.last()));
        if t.len() > 0 {
            add_elem(d1, plain(ElementKind::Paragraph, t))
        } else {
            d1
        }
    }
}

/// One cell: nothing when its source is blank; a Markdown cell's links,
/// headings and paragraphs; a code cell's code (in the kernel's language, with
/// its attributes) and its outputs; the text of any other cell as a paragraph.
pub open spec fn cell_doc(d: DocView, cell: JsonValue, lang: Option<Seq<char>>) -> DocView {
    let ct = str_or(json_get(cell, "cell_type"@), "unknown"@);
    let t = text::trim(
        match json_get(cell, "source"@) {
            Some(v) => source_of(v),
            None => seq![],
        },
    );
    if t.len() == 0 {
        d
    } else if ct == "markdown"@ {
        markdown_cell(d, t)
    } else if ct == "code"@ {
        let e = code_elem(t, lang);
        let d1 = add_elem(d, ElemView { attrs: e.attrs + code_attrs(cell), ..e });
        match json_array(json_get(cell, "outputs"@)) {
            Some(outs) => outputs_doc(d1, outs),
            None => d1,
        }
    } else {
        add_elem(d, plain(ElementKind::Paragraph, t))
    }
}

/// The cells one after the other.
pub open spec fn cells_doc(d: DocView, cells: Seq<JsonValue>, lang: Option<Seq<char>>) -> DocView
    decreases cells.len(),
{
    if cells.len() == 0 {
        d
    } else {
        cell_doc(cells_doc(d, cells.drop_last(), lang), cells.last(), lang)
    }
}

/// The document of a notebook; none when it has no `cells` array.
pub open spec fn spec_notebook_document(nb: JsonValue) -> Option<DocView> {
    match json_array(json_get(nb, "cells"@)) {
        Some(cells) => Some(cells_doc(empty_doc(), cells, kernel_language(nb))),
        None => None,
    }
}

/// The text of a string value, else `d`.
fn str_or_exec(v: Option<&JsonValue>, d: &str) -> (r: Vec<char>)
    ensures
        r@ == str_or(opt_val(v), d@),
{
    match v {
        Some(x) => match x.as_str() {
            Some(s) => str_chars(s),
            None => str_chars(d),
        },
        None => str_chars(d),
    }
}

impl JupyterExtractor {
    /// The `text/plain` text of a cell output.
    pub fn collect_output_text(output: &JsonValue) -> (r: String)
        ensures
            r@ == spec_output_text(*output),
    {
        let ot = str_or_exec(output.get("output_type"), "");
        proof {
            reveal_strlit("");
        }
        assert(""@ =~= Seq::<char>::empty());
        assert(ot@ == str_or(json_get(*output, "output_type"@), seq![]));
        let mut out: Vec<char> = Vec::new();
        if text::slice_eq(ot.as_slice(), str_chars("stream").as_slice()) {
            match output.get("text") {
                Some(t) => {
                    out = extract_source(t);
                },
                None => {},
            }
        } else if text::slice_eq(ot.as_slice(), str_chars("execute_result").as_slice()) || text::slice_eq(
            ot.as_slice(),
            str_chars("display_data").as_slice(),
        ) {
            match get_opt(output.get("data"), "text/plain") {
                Some(p) => {
                    out = extract_source(p);
                },
                None => {},
            }
        } else if text::slice_eq(ot.as_slice(), str_chars("error").as_slice()) {
            let ename = str_or_exec(output.get("ename"), "Unknown");
            let evalue = str_or_exec(output.get("evalue"), "");
            push_str(&mut out, "Error (");
            push_all(&mut out, ename.as_slice());
            push_str(&mut out, "): ");
            push_all(&mut out, evalue.as_slice());
            assert(evalue@ == str_or(json_get(*output, "evalue"@), seq![]));
            assert(out@ =~= "Error ("@ + ename@ + "): "@ + evalue@);
        } else {
            assert(out@ =~= Seq::<char>::empty());
        }
        chars_string(out.as_slice())
    }
}


/// Adds the gathered lines as a paragraph of inline Markdown, when not blank.
fn push_flush(doc: &mut InternalDocument, buf: &[char])
    ensures
        final(doc)@ == flush_para(old(doc)@, buf@),
        final(doc).source_format == old(doc).source_format,
{
    let f = trim_vec(buf);
    if f.len() > 0 {
        let fs = chars_string(f.as_slice());
        let (stripped, anns) = JupyterExtractor::scan_markdown_inline(fs.as_str());
        let e = InternalElement {
            kind: ElementKind::Paragraph,
            text: stripped,
            annotations: anns,
            attributes: Vec::new(),
            cells: Vec::new(),
            anchor: None,
        };
        assert(e@.attrs =~= Seq::<(Seq<char>, Seq<char>)>::empty());
        assert(e@.cells =~= Seq::<Seq<Seq<char>>>::empty());
        doc.push_element(e);
    }
}

/// Adds a Markdown cell of trimmed source `t`.
fn push_markdown_cell(doc: &mut InternalDocument, t: &[char])
    ensures
        final(doc)@ == markdown_cell(old(doc)@, t@),
        final(doc).source_format == old(doc).source_format,
{
    let ts = chars_string(t);
    let uris = JupyterExtractor::extract_markdown_links(ts.as_str());
    doc.append_uris(uris);
    let ghost d0 = doc@;
    let ls = lines_exec(t);
    let ghost lv = text::views(ls@);
    let mut buf: Vec<char> = Vec::new();
    let mut k: usize = 0;
    assert(lv.take(0) =~= Seq::<Seq<char>>::empty());
    while k < ls.len()
        invariant
            k <= ls@.len(),
            lv == text::views(ls@),
            (doc@, buf@) == md_cell_lines(d0, lv.take(k as int)),
            doc.source_format == old(doc).source_format,
        decreases ls@.len() - k,
    {
        assert(lv.take(k + 1).drop_last() =~= lv.take(k as int));
        assert(lv.take(k + 1).last() == ls@[k as int]@);
        let line = chars_string(ls[k].as_slice());
        match JupyterExtractor::parse_heading_line(line.as_str()) {
            Some((level, ht)) => {
                push_flush(doc, buf.as_slice());
                buf = Vec::new();
                if !ht.as_str().is_empty() {
                    let hc = str_chars(ht.as_str());
                    doc.push_plain(ElementKind::Heading { level }, hc.as_slice());
                }
            },
            None => {
                if buf.len() > 0 {
                    buf.push('\n');
                }
                push_all(&mut buf, ls[k].as_slice());
                proof {
                    reveal_strlit("\n");
                }
            },
        }
        k = k + 1;
    }
    assert(lv.take(k as int) =~= lv);
    assert(lv == text::lines(t@));
    push_flush(doc, buf.as_slice());
}

/// The strings among `items` joined with commas.
fn join_tags(items: &Vec<JsonValue>) -> (r: Vec<char>)
    ensures
        r@ == comma_join(str_items(items@)),
{
    let mut out: Vec<char> = Vec::new();
    let mut n: usize = 0;
    let mut k: usize = 0;
    while k < items.len()
        invariant
            k <= items@.len(),
            n <= k,
            n == str_items(items@.take(k as int)).len(),
            out@ == comma_join(str_items(items@.take(k as int))),
        decreases items@.len() - k,
    {
        assert(items@.take(k + 1).drop_last() =~= items@.take(k as int));
        match &items[k] {
            JsonValue::String(s) => {
                let ghost parts = str_items(items@.take(k as int));
                assert(str_items(items@.take(k + 1)) =~= parts.push(s@));
                assert(parts.push(s@).drop_last() =~= parts);
                if n > 0 {
                    push_str(&mut out, ",");
                }
                push_str(&mut out, s.as_str());
                assert(n == 0 ==> out@ =~= parts.push(s@)[0]);
                n = n + 1;
            },
            _ => {
                assert(str_items(items@.take(k + 1)) =~= str_items(items@.take(k as int)));
            },
        }
        k = k + 1;
    }
    assert(items@.take(k as int) =~= items@);
    out
}

/// A code cell's attributes.
fn code_attrs_exec(cell: &JsonValue) -> (r: Vec<(String, String)>)
    ensures
        pairs_view(r@) == code_attrs(*cell),
{
    let mut r: Vec<(String, String)> = Vec::new();
    match cell.get("execution_count") {
        Some(JsonValue::Number(n)) => {
            r.push(("execution_count".to_owned(), n.clone()));
        },
        Some(JsonValue::Null) => {
            r.push(("execution_count".to_owned(), "null".to_owned()));
        },
        _ => {},
    }
    let ghost first = pairs_view(r@);
    match get_opt(cell.get("metadata"), "tags") {
        Some(JsonValue::Array(items)) => {
            if items.len() > 0 {
                let joined = join_tags(items);
                r.push(("tags".to_owned(), chars_string(joined.as_slice())));
                assert(pairs_view(r@) =~= first + seq![("tags"@, comma_join(str_items(items@)))]);
            } else {
                assert(pairs_view(r@) =~= first + Seq::<(Seq<char>, Seq<char>)>::empty());
            }
        },
        _ => {
            assert(pairs_view(r@) =~= first + Seq::<(Seq<char>, Seq<char>)>::empty());
        },
    }
    r
}

/// Adds the paragraphs of a code cell's outputs.
fn push_outputs(doc: &mut InternalDocument, outs: &Vec<JsonValue>)
    ensures
        final(doc)@ == outputs_doc(old(doc)@, outs@),
        final(doc).source_format == old(doc).source_format,
{
    let ghost d0 = doc@;
    let mut k: usize = 0;
    assert(outs@.take(0) =~= Seq::<JsonValue>::empty());
    while k < outs.len()
        invariant
            k <= outs@.len(),
            doc@ == outputs_doc(d0, outs@.take(k as int)),
            doc.source_format == old(doc).source_format,
        decreases outs@.len() - k,
    {
        assert(outs@.take(k + 1).drop_last() =~= outs@.take(k as int));
        let t = JupyterExtractor::collect_output_text(&outs[k]);
        let tc = str_chars(t.as_str());
        let tt = trim_vec(tc.as_slice());
        if tt.len() > 0 {
            doc.push_plain(ElementKind::Paragraph, tt.as_slice());
        }
        k = k + 1;
    }
    assert(outs@.take(k as int) =~= outs@);
}

/// Adds one cell.
fn push_cell(doc: &mut InternalDocument, cell: &JsonValue, lang: &Option<Vec<char>>)
    ensures
        final(doc)@ == cell_doc(old(doc)@, *cell, opt_chars(*lang)),
        final(doc).source_format == old(doc).source_format,
{
    let ct = str_or_exec(cell.get("cell_type"), "unknown");
    let src = match cell.get("source") {
        Some(v) => extract_source(v),
        None => Vec::new(),
    };
    let t = trim_vec(src.as_slice());
    if t.len() == 0 {
        return;
    }
    if text::slice_eq(ct.as_slice(), str_chars("markdown").as_slice()) {
        push_markdown_cell(doc, t.as_slice());
    } else if text::slice_eq(ct.as_slice(), str_chars("code").as_slice()) {
        let mut attrs: Vec<(String, String)> = Vec::new();
        match lang {
            Some(l) => {
                attrs.push(("language".to_owned(), chars_string(l.as_slice())));
            },
            None => {},
        }
        let ghost a0 = pairs_view(attrs@);
        let mut extra = code_attrs_exec(cell);
        let ghost ev = pairs_view(extra@);
        attrs.append(&mut extra);
        assert(pairs_view(attrs@) =~= a0 + ev);
        assert(a0 == code_elem(t@, opt_chars(*lang)).attrs);
        let e = InternalElement {
            kind: ElementKind::Code,
            text: chars_string(t.as_slice()),
            annotations: Vec::new(),
            attributes: attrs,
            cells: Vec::new(),
            anchor: None,
        };
        assert(e@.anns =~= Seq::<AnnView>::empty());
        assert(e@.cells =~= Seq::<Seq<Seq<char>>>::empty());
        doc.push_element(e);
        match get_opt(Some(cell), "outputs") {
            Some(JsonValue::Array(outs)) => push_outputs(doc, outs),
            _ => {},
        }
    } else {
        doc.push_plain(ElementKind::Paragraph, t.as_slice());
    }
}

/// The language of code cells.
fn kernel_language_exec(nb: &JsonValue) -> (r: Option<Vec<char>>)
    ensures
        opt_chars(r) == kernel_language(*nb),
{
    let meta = nb.get("metadata");
    match get_opt(get_opt(meta, "kernelspec"), "language") {
        Some(v) => match v.as_str() {
            Some(s) => {
                return Some(str_chars(s));
            },
            None => {},
        },
        None => {},
    }
    match get_opt(get_opt(meta, "language_info"), "name") {
        Some(v) => match v.as_str() {
            Some(s) => Some(str_chars(s)),
            None => None,
        },
        None => None,
    }
}

impl JupyterExtractor {
    /// The structured document of a parsed notebook: none when it has no `cells`
    /// array; else its cells in order, code in the kernel's language.
    pub fn build_internal_document(notebook: &JsonValue) -> (r: Option<InternalDocument>)
        ensures
            r matches Some(d) ==> spec_notebook_document(*notebook) == Some(d@) && d.source_format@ == "jupyter"@,
            r is None ==> spec_notebook_document(*notebook) is None,
    {
        let cells = match notebook.get("cells") {
            Some(c) => match c.as_array() {
                Some(a) => a,
                None => {
                    return None;
                },
            },
            None => {
                return None;
            },
        };
        let lang = kernel_language_exec(notebook);
        let mut doc = InternalDocument::new("jupyter");
        let ghost d0 = doc@;
        let mut k: usize = 0;
        assert(cells@.take(0) =~= Seq::<JsonValue>::empty());
        while k < cells.len()
            invariant
                k <= cells@.len(),
                d0 == empty_doc(),
                doc@ == cells_doc(d0, cells@.take(k as int), opt_chars(lang)),
                doc.source_format@ == "jupyter"@,
            decreases cells@.len() - k,
        {
            assert(cells@.take(k + 1).drop_last() =~= cells@.take(k as int));
            push_cell(&mut doc, &cells[k], &lang);
            k = k + 1;
        }
        assert(cells@.take(k as int) =~= cells@);
        Some(doc)
    }
}


/// The notebook's language: the name in its language info.
pub open spec fn spec_notebook_language(nb: JsonValue) -> Option<Seq<char>> {
    json_str(get_in(get_in(json_get(nb, "metadata"@), "language_info"@), "name"@))
}

impl JupyterExtractor {
    /// The notebook's language, for its metadata: the name in its language info.
    pub fn notebook_language(notebook: &JsonValue) -> (r: Option<String>)
        ensures
            opt_str(r) == spec_notebook_language(*notebook),
    {
        match get_opt(get_opt(notebook.get("metadata"), "language_info"), "name") {
            Some(v) => match v.as_str() {
                Some(s) => Some(s.to_owned()),
                None => None,
            },
            None => None,
        }
    }
}


// ---------------------------------------------------------------------------
// Notebook metadata
// ---------------------------------------------------------------------------

/// An entry for `key` when the value is present.
pub open spec fn opt_entry(key: Seq<char>, v: Option<JsonValue>) -> Seq<(Seq<char>, JsonView)> {
    match v {
        Some(x) => seq![(key, jview(x))],
        None => seq![],
    }
}

/// The summary of cell number `idx`: its index and type, a code cell's
/// execution count, and its tags when there are any.
pub open spec fn cell_summary(cell: JsonValue, idx: nat) -> JsonView {
    let ct = str_or(json_get(cell, "cell_type"@), "unknown"@);
    JsonView::Object(
        seq![("index"@, JsonView::Number(text::decimal(idx))), ("cell_type"@, JsonView::Str(ct))] + (if ct
            == "code"@ {
            opt_entry("execution_count"@, json_get(cell, "execution_count"@))
        } else {
            seq![]
        }) + match get_in(json_get(cell, "metadata"@), "tags"@) {
            Some(JsonValue::Array(tags)) => if tags@.len() > 0 {
                seq![("tags"@, JsonView::Array(items_view(tags@)))]
            } else {
                seq![]
            },
            _ => seq![],
        },
    )
}

/// The summaries of the cells, numbered from 0.
pub open spec fn cell_summaries(cells: Seq<JsonValue>) -> Seq<JsonView>
    decreases cells.len(),
{
    if cells.len() == 0 {
        seq![]
    } else {
        cell_summaries(cells.drop_last()).push(cell_summary(cells.last(), (cells.len() - 1) as nat))
    }
}

/// The metadata a notebook's `metadata` object gives: its kernel spec, its
/// language info, and that info's name, version and MIME type.
pub open spec fn meta_part(nb: JsonValue) -> Seq<(Seq<char>, JsonView)> {
    let meta = json_get(nb, "metadata"@);
    let li = get_in(meta, "language_info"@);
    match meta {
        Some(JsonValue::Object(_)) => opt_entry("kernelspec"@, get_in(meta, "kernelspec"@)) + opt_entry(
            "language_info"@,
            li,
        ) + match li {
            Some(JsonValue::Object(_)) => opt_entry("language_name"@, get_in(li, "name"@)) + opt_entry(
                "language_version"@,
                get_in(li, "version"@),
            ) + opt_entry("language_mimetype"@, get_in(li, "mimetype"@)),
            _ => seq![],
        },
        _ => seq![],
    }
}

/// The number of cells and a summary of each, when the notebook has cells.
pub open spec fn cells_part(nb: JsonValue) -> Seq<(Seq<char>, JsonView)> {
    match json_array(json_get(nb, "cells"@)) {
        Some(cells) => seq![
            ("cell_count"@, JsonView::Number(text::decimal(cells.len()))),
            ("cells"@, JsonView::Array(cell_summaries(cells))),
        ],
        None => seq![],
    }
}

/// What a notebook's metadata keeps: its kernel spec, its language info and
/// that info's name, version and MIME type, its format version, and, when it
/// has cells, their number and a summary of each.
pub open spec fn spec_notebook_metadata(nb: JsonValue) -> Seq<(Seq<char>, JsonView)> {
    meta_part(nb) + opt_entry("nbformat"@, json_get(nb, "nbformat"@)) + opt_entry(
        "nbformat_minor"@,
        json_get(nb, "nbformat_minor"@),
    ) + cells_part(nb)
}

/// The views of metadata entries.
pub open spec fn json_entries_view(v: Seq<(String, JsonValue)>) -> Seq<(Seq<char>, JsonView)> {
    v.map_values(|p: (String, JsonValue)| (p.0@, jview(p.1)))
}

/// Adds an entry for `key` when the value is present.
fn push_opt_entry(out: &mut Vec<(String, JsonValue)>, key: &str, v: Option<&JsonValue>)
    ensures
        json_entries_view(final(out)@) == json_entries_view(old(out)@) + opt_entry(key@, opt_val(v)),
{
    let ghost before = json_entries_view(out@);
    match v {
        Some(x) => {
            let c = copy_json(x);
            let ghost e = (key@, jview(c));
            out.push((key.to_owned(), c));
            assert(json_entries_view(out@) =~= before + seq![e]);
        },
        None => {
            assert(json_entries_view(out@) =~= before + Seq::<(Seq<char>, JsonView)>::empty());
        },
    }
}

/// A decimal number as a JSON value.
fn number_of(n: usize) -> (r: JsonValue)
    ensures
        jview(r) == JsonView::Number(text::decimal(n as nat)),
{
    let mut d: Vec<char> = Vec::new();
    text::push_decimal(&mut d, n as u128);
    assert(d@ =~= text::decimal(n as nat));
    JsonValue::Number(chars_string(d.as_slice()))
}

/// The summary of cell number `idx`.
fn cell_summary_exec(cell: &JsonValue, idx: usize) -> (r: JsonValue)
    ensures
        jview(r) == cell_summary(*cell, idx as nat),
{
    let ct = str_or_exec(cell.get("cell_type"), "unknown");
    let mut m: Vec<(String, JsonValue)> = Vec::new();
    let n = number_of(idx);
    let ghost nv = jview(n);
    m.push(("index".to_owned(), n));
    let ctv = JsonValue::String(chars_string(ct.as_slice()));
    m.push(("cell_type".to_owned(), ctv));
    let ghost base = seq![("index"@, JsonView::Number(text::decimal(idx as nat))), ("cell_type"@, JsonView::Str(ct@))];
    assert(json_entries_view(m@) =~= base);
    if text::slice_eq(ct.as_slice(), str_chars("code").as_slice()) {
        push_opt_entry(&mut m, "execution_count", cell.get("execution_count"));
    } else {
        assert(json_entries_view(m@) =~= base + Seq::<(Seq<char>, JsonView)>::empty());
    }
    let ghost mid = json_entries_view(m@);
    match get_opt(cell.get("metadata"), "tags") {
        Some(JsonValue::Array(tags)) => {
            if tags.len() > 0 {
                let c = copy_items(tags);
                let ghost e = ("tags"@, JsonView::Array(items_view(tags@)));
                m.push(("tags".to_owned(), JsonValue::Array(c)));
                assert(json_entries_view(m@) =~= mid + seq![e]);
            } else {
                assert(json_entries_view(m@) =~= mid + Seq::<(Seq<char>, JsonView)>::empty());
            }
        },
        _ => {
            assert(json_entries_view(m@) =~= mid + Seq::<(Seq<char>, JsonView)>::empty());
        },
    }
    proof {
        lemma_members_entries(m@);
    }
    JsonValue::Object(m)
}

/// The member values of an object are its entries' values.
proof fn lemma_members_entries(m: Seq<(String, JsonValue)>)
    ensures
        members_view(m) == json_entries_view(m),
    decreases m.len(),
{
    if m.len() > 0 {
        lemma_members_entries(m.drop_last());
        assert(json_entries_view(m) =~= json_entries_view(m.drop_last()).push((m.last().0@, jview(m.last().1))));
    } else {
        assert(json_entries_view(m) =~= Seq::<(Seq<char>, JsonView)>::empty());
    }
}

/// Adds the metadata of the notebook's `metadata` object.
fn push_meta_part(out: &mut Vec<(String, JsonValue)>, notebook: &JsonValue)
    ensures
        json_entries_view(final(out)@) == json_entries_view(old(out)@) + meta_part(*notebook),
{
    let ghost o0 = json_entries_view(out@);
    let meta = notebook.get("metadata");
    let li = get_opt(meta, "language_info");
    match meta {
        Some(JsonValue::Object(_)) => {
            push_opt_entry(out, "kernelspec", get_opt(meta, "kernelspec"));
            push_opt_entry(out, "language_info", li);
            let ghost o1 = json_entries_view(out@);
            match li {
                Some(JsonValue::Object(_)) => {
                    push_opt_entry(out, "language_name", get_opt(li, "name"));
                    push_opt_entry(out, "language_version", get_opt(li, "version"));
                    push_opt_entry(out, "language_mimetype", get_opt(li, "mimetype"));
                },
                _ => {
                    assert(json_entries_view(out@) =~= o1 + Seq::<(Seq<char>, JsonView)>::empty());
                },
            }
            assert(json_entries_view(out@) =~= o0 + meta_part(*notebook));
        },
        _ => {
            assert(json_entries_view(out@) =~= o0 + Seq::<(Seq<char>, JsonView)>::empty());
        },
    }
}

/// Adds the number of cells and their summaries.
fn push_cells_part(out: &mut Vec<(String, JsonValue)>, notebook: &JsonValue)
    ensures
        json_entries_view(final(out)@) == json_entries_view(old(out)@) + cells_part(*notebook),
{
    let ghost p2 = json_entries_view(out@);
    match notebook.get("cells") {
        Some(JsonValue::Array(cells)) => {
            let count = number_of(cells.len());
            out.push(("cell_count".to_owned(), count));
            let mut summaries: Vec<JsonValue> = Vec::new();
            let mut k: usize = 0;
            assert(cells@.take(0) =~= Seq::<JsonValue>::empty());
            assert(items_view(summaries@) =~= Seq::<JsonView>::empty());
            while k < cells.len()
                invariant
                    k <= cells@.len(),
                    items_view(summaries@) == cell_summaries(cells@.take(k as int)),
                decreases cells@.len() - k,
            {
                assert(cells@.take(k + 1).drop_last() =~= cells@.take(k as int));
                let s = cell_summary_exec(&cells[k], k);
                let ghost before = summaries@;
                summaries.push(s);
                assert(summaries@.drop_last() =~= before);
                k = k + 1;
            }
            assert(cells@.take(k as int) =~= cells@);
            out.push(("cells".to_owned(), JsonValue::Array(summaries)));
            assert(json_entries_view(out@) =~= p2 + cells_part(*notebook));
        },
        _ => {
            assert(json_entries_view(out@) =~= p2 + Seq::<(Seq<char>, JsonView)>::empty());
        },
    }
}

impl JupyterExtractor {
    /// What a notebook's metadata keeps, key by key: its kernel spec, its
    /// language info and that info's name, version and MIME type, its format
    /// version, and, when it has cells, their number and a summary of each
    /// (index, type, a code cell's execution count, tags).
    pub fn notebook_metadata(notebook: &JsonValue) -> (r: Vec<(String, JsonValue)>)
        ensures
            json_entries_view(r@) == spec_notebook_metadata(*notebook),
    {
        let mut out: Vec<(String, JsonValue)> = Vec::new();
        assert(json_entries_view(out@) =~= Seq::<(Seq<char>, JsonView)>::empty());
        push_meta_part(&mut out, notebook);
        push_opt_entry(&mut out, "nbformat", notebook.get("nbformat"));
        push_opt_entry(&mut out, "nbformat_minor", notebook.get("nbformat_minor"));
        push_cells_part(&mut out, notebook);
        out
    }
}

// ---------------------------------------------------------------------------
// A notebook's bytes
// ---------------------------------------------------------------------------

/// A notebook's metadata entries with each value written as JSON text.
pub open spec fn spec_notebook_entries(nb: JsonValue) -> Seq<(Seq<char>, Seq<char>)> {
    spec_notebook_metadata(nb).map_values(|e: (Seq<char>, JsonView)| (e.0, json_rendered(e.1)))
}

/// The document of a parsed notebook: that of its cells (nothing where it has
/// none), with its language and its metadata entries as metadata.
pub open spec fn spec_notebook_bytes_document(nb: JsonValue) -> DocView {
    let d = match spec_notebook_document(nb) {
        Some(x) => x,
        None => empty_doc(),
    };
    DocView {
        meta: MetadataView {
            language: spec_notebook_language(nb),
            additional: spec_notebook_entries(nb),
            ..empty_metadata()
        },
        ..d
    }
}

impl JupyterExtractor {
    /// A notebook's metadata entries (kernel, language, format version, cell
    /// count and a summary per cell), each value written as JSON text.
    pub fn notebook_entries(notebook: &JsonValue) -> (r: Vec<(String, String)>)
        ensures
            pairs_view(r@) == spec_notebook_entries(*notebook),
    {
        let es = JupyterExtractor::notebook_metadata(notebook);
        let ghost ev = json_entries_view(es@);
        let mut out: Vec<(String, String)> = Vec::new();
        let mut k: usize = 0;
        while k < es.len()
            invariant
                k <= es@.len(),
                ev == json_entries_view(es@),
                pairs_view(out@) == ev.take(k as int).map_values(
                    |e: (Seq<char>, JsonView)| (e.0, json_rendered(e.1)),
                ),
            decreases es@.len() - k,
        {
            let key = es[k].0.clone();
            let text = json_text(&es[k].1);
            let ghost before = out@;
            out.push((key, text));
            assert(pairs_view(out@) =~= pairs_view(before).push((key@, text@)));
            assert(ev.take(k + 1) =~= ev.take(k as int).push(ev[k as int]));
            assert(ev.take(k + 1).map_values(|e: (Seq<char>, JsonView)| (e.0, json_rendered(e.1))) =~= ev.take(
                k as int,
            ).map_values(|e: (Seq<char>, JsonView)| (e.0, json_rendered(e.1))).push((key@, text@)));
            k = k + 1;
        }
        assert(ev.take(ev.len() as int) =~= ev);
        out
    }

    /// The structured document of a notebook's bytes, with its MIME type, its
    /// language and its metadata entries; the parser's error where the bytes
    /// are not JSON.
    pub fn extract_bytes(content: &[u8], mime_type: &str) -> (r: Result<InternalDocument, KreuzbergError>)
        ensures
            match json_parsed(content@) {
                Ok(nb) => r matches Ok(d) && d@ == spec_notebook_bytes_document(nb) && d.mime_type@ == mime_type@
                    && d.source_format@ == "jupyter"@,
                Err(m) => r matches Err(KreuzbergError::Parsing(e)) && e@ == m,
            },
    {
        let notebook = match parse_json(content) {
            Ok(v) => v,
            Err(m) => {
                return Err(KreuzbergError::Parsing(m));
            },
        };
        let mut doc = match JupyterExtractor::build_internal_document(&notebook) {
            Some(d) => d,
            None => InternalDocument::new("jupyter"),
        };
        doc.mime_type = mime_type.to_string();
        let mut metadata = Metadata::new();
        metadata.language = JupyterExtractor::notebook_language(&notebook);
        metadata.additional = JupyterExtractor::notebook_entries(&notebook);
        doc.metadata = metadata;
        Ok(doc)
    }
}
} // verus!
