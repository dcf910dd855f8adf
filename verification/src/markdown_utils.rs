//! Markdown events as the text extraction reads them, the plain text of an
//! event stream, and the images of its `data:` URIs.

use vstd::prelude::*;
use base64::Engine;
use pulldown_cmark::{CodeBlockKind, Event, Options, Parser, Tag, TagEnd};
use crate::text;
use crate::text::{chars_string, contains_str, push_all, push_str, slice_vec, starts_with_str, str_chars};
use crate::types::{ExtractedImage, ImageView, images_view};

verus! {

/// A heading level.
#[derive(Clone, Copy, Debug, PartialEq, Eq)]
pub enum MdHeading {
    H1,
    H2,
    H3,
    H4,
    H5,
    H6,
}

/// What a start event opens: a paragraph, a heading, a block quote, a code block
/// (fenced with its info string, or indented), a link with its destination and
/// title, an image with its destination, strong, emphasis or struck-through
/// text, a list (ordered or not), a list item, a table and its parts, a
/// footnote definition with its label, or something the builders pass over.
#[derive(Clone, Debug, PartialEq, Eq)]
pub enum MdTag {
    Paragraph,
    Heading(MdHeading),
    BlockQuote,
    CodeBlock(Option<String>),
    Link(String, String),
    Image(String),
    Strong,
    Emphasis,
    Strikethrough,
    List(bool),
    Item,
    Table,
    TableHead,
    TableRow,
    TableCell,
    FootnoteDefinition(String),
    Other,
}

/// What an end event closes.
#[derive(Clone, Copy, Debug, PartialEq, Eq)]
pub enum MdTagEnd {
    Paragraph,
    Heading,
    CodeBlock,
    Link,
    Image,
    Strong,
    Emphasis,
    Strikethrough,
    BlockQuote,
    List,
    Item,
    Table,
    TableHead,
    TableRow,
    TableCell,
    FootnoteDefinition,
    Other,
}

/// A Markdown event.
#[derive(Clone, Debug, PartialEq, Eq)]
pub enum MdEvent {
    Start(MdTag),
    End(MdTagEnd),
    Text(String),
    Code(String),
    Html(String),
    FootnoteReference(String),
    SoftBreak,
    HardBreak,
    Rule,
    TaskListMarker(bool),
    Other,
}

/// The `#` prefix of a heading.
pub open spec fn heading_prefix(h: MdHeading) -> Seq<char> {
    match h {
        MdHeading::H1 => "# "@,
        MdHeading::H2 => "## "@,
        MdHeading::H3 => "### "@,
        MdHeading::H4 => "#### "@,
        MdHeading::H5 => "##### "@,
        MdHeading::H6 => "###### "@,
    }
}

// ---------------------------------------------------------------------------
// Images in data URIs
// ---------------------------------------------------------------------------

/// What standard base64 (padded, `+` and `/`) decodes `s` to, when `s` is valid.
pub uninterp spec fn base64_decoded(s: Seq<char>) -> Option<Seq<u8>>;

/// Decodes standard base64: `base64::engine::general_purpose::STANDARD.decode`.
/// Its result is a function of `s` alone, named `base64_decoded`; what that
/// function is, is not stated here.
#[verifier::external_body]
fn base64_decode(s: &str) -> (r: Option<Vec<u8>>)
    ensures
        r matches Some(v) ==> base64_decoded(s@) == Some(v@),
        r is None ==> base64_decoded(s@) is None,
{
    base64::engine::general_purpose::STANDARD.decode(s).ok()
}

/// A `data:` URI's header (up to the first comma) and its data (after it).
pub open spec fn data_uri_parts(uri: Seq<char>) -> Option<(Seq<char>, Seq<char>)> {
    if text::starts_with(uri, "data:"@) {
        let rest = uri.skip(5);
        match text::find_char(rest, ',') {
            Some(k) => Some((rest.take(k as int), rest.skip(k + 1int))),
            None => None,
        }
    } else {
        None
    }
}

/// The image format a data URI's header names: PNG, JPEG, GIF or WebP.
pub open spec fn image_format(header: Seq<char>) -> Option<Seq<char>> {
    if text::contains(header, "image/png"@) {
        Some("png"@)
    } else if text::contains(header, "image/jpeg"@) {
        Some("jpeg"@)
    } else if text::contains(header, "image/gif"@) {
        Some("gif"@)
    } else if text::contains(header, "image/webp"@) {
        Some("webp"@)
    } else {
        None
    }
}

/// `s` without its line breaks (`\n` and `\r`).
pub open spec fn strip_line_breaks(s: Seq<char>) -> Seq<char>
    decreases s.len(),
{
    if s.len() == 0 {
        seq![]
    } else {
        strip_line_breaks(s.drop_last()) + if s.last() == '\n' || s.last() == '\r' {
            seq![]
        } else {
            seq![s.last()]
        }
    }
}

/// The image a base64 `data:` URI of a PNG, JPEG, GIF or WebP holds, as image
/// number `index`: none for another encoding or format, or invalid base64.
pub open spec fn spec_decode_data_uri(uri: Seq<char>, index: usize) -> Option<ImageView> {
    match data_uri_parts(uri) {
        Some((header, data)) => if text::contains(header, "base64"@) {
            match image_format(header) {
                Some(f) => match base64_decoded(strip_line_breaks(data)) {
                    Some(bytes) => Some(
                        ImageView {
                            data: bytes,
                            format: f,
                            image_index: index,
                            page_number: None,
                            description: None,
                            source_path: None,
                        },
                    ),
                    None => None,
                },
                None => None,
            }
        } else {
            None
        },
        None => None,
    }
}

/// `s` without its line breaks.
fn strip_line_breaks_exec(s: &[char]) -> (r: Vec<char>)
    ensures
        r@ == strip_line_breaks(s@),
{
    let mut r: Vec<char> = Vec::new();
    let mut k: usize = 0;
    while k < s.len()
        invariant
            k <= s@.len(),
            r@ == strip_line_breaks(s@.take(k as int)),
        decreases s@.len() - k,
    {
        assert(s@.take(k + 1).drop_last() =~= s@.take(k as int));
        if s[k] != '\n' && s[k] != '\r' {
            r.push(s[k]);
        }
        k = k + 1;
    }
    assert(s@.take(k as int) =~= s@);
    r
}

/// The image of a base64 `data:` URI (`data:image/png;base64,...`), numbered
/// `index`, when its format is PNG, JPEG, GIF or WebP and its data decodes.
pub fn decode_data_uri_image(uri: &str, index: usize) -> (r: Option<ExtractedImage>)
    ensures
        r matches Some(i) ==> spec_decode_data_uri(uri@, index) == Some(i@),
        r is None ==> spec_decode_data_uri(uri@, index) is None,
{
    let u = str_chars(uri);
    if !starts_with_str(u.as_slice(), "data:") {
        return None;
    }
    proof {
        reveal_strlit("data:");
    }
    let rest = slice_vec(u.as_slice(), 5, u.len());
    assert(rest@ == uri@.skip(5));
    proof {
        text::lemma_find_char_some(rest@, ',');
    }
    let k = match text::find_char_exec(rest.as_slice(), ',') {
        Some(k) => k,
        None => {
            return None;
        },
    };
    let header = slice_vec(rest.as_slice(), 0, k);
    let data = slice_vec(rest.as_slice(), k + 1, rest.len());
    assert(header@ == rest@.take(k as int));
    assert(data@ == rest@.skip(k + 1int));
    if !contains_str(header.as_slice(), "base64") {
        return None;
    }
    let format = if contains_str(header.as_slice(), "image/png") {
        "png"
    } else if contains_str(header.as_slice(), "image/jpeg") {
        "jpeg"
    } else if contains_str(header.as_slice(), "image/gif") {
        "gif"
    } else if contains_str(header.as_slice(), "image/webp") {
        "webp"
    } else {
        return None;
    };
    let cleaned = strip_line_breaks_exec(data.as_slice());
    let cs = chars_string(cleaned.as_slice());
    match base64_decode(cs.as_str()) {
        Some(bytes) => Some(
            ExtractedImage {
                data: bytes,
                format: format.to_owned(),
                image_index: index,
                page_number: None,
                description: None,
                source_path: None,
            },
        ),
        None => None,
    }
}

/// The text extracted so far, the destination of the open link, whether a
/// heading is open, and the images collected so far.
pub struct TextState {
    pub text: Seq<char>,
    pub link: Option<Seq<char>>,
    pub in_heading: bool,
    pub images: Seq<ImageView>,
}

/// The images after an image whose destination is `url`: one more when it is
/// a `data:image/` URI that decodes.
pub open spec fn collect_image(images: Seq<ImageView>, url: Seq<char>) -> Seq<ImageView> {
    if text::starts_with(url, "data:image/"@) {
        match spec_decode_data_uri(url, images.len() as usize) {
            Some(i) => images.push(i),
            None => images,
        }
    } else {
        images
    }
}

/// Appends to the text.
pub open spec fn append(st: TextState, s: Seq<char>) -> TextState {
    TextState { text: st.text + s, ..st }
}

/// What one event adds: headings on lines of their own with their `#` prefix, a
/// link's destination after it (unless empty or a fragment), images as
/// `[Image: url]` (collecting those of `data:` URIs), fenced code with its fences and info string, quotes as `> `,
/// paragraphs on lines of their own, text, code and HTML as they are, breaks as
/// line breaks, task markers, footnote references in brackets and rules.
pub open spec fn text_step(st: TextState, e: MdEvent) -> TextState {
    match e {
        MdEvent::Start(MdTag::Heading(h)) => TextState {
            text: st.text + "\n"@ + heading_prefix(h),
            in_heading: true,
            ..st
        },
        MdEvent::End(MdTagEnd::Heading) => TextState { text: st.text + "\n"@, in_heading: false, ..st },
        MdEvent::Start(MdTag::Link(url, _)) => TextState { link: Some(url@), ..st },
        MdEvent::End(MdTagEnd::Link) => match st.link {
            Some(u) => TextState {
                text: if u.len() > 0 && !text::starts_with(u, "#"@) {
                    st.text + " ("@ + u + ")"@
                } else {
                    st.text
                },
                link: None,
                ..st
            },
            None => st,
        },
        MdEvent::Start(MdTag::Image(url)) => TextState {
            images: collect_image(st.images, url@),
            ..append(
                st,
                "[Image"@ + (if url@.len() > 0 {
                    ": "@ + url@
                } else {
                    seq![]
                }) + "]"@,
            )
        },
        MdEvent::Start(MdTag::CodeBlock(Some(lang))) => append(st, "\n```"@ + lang@ + "\n"@),
        MdEvent::End(MdTagEnd::CodeBlock) => append(st, "```\n"@),
        MdEvent::Start(MdTag::BlockQuote) => append(st, "\n> "@),
        MdEvent::Start(MdTag::Paragraph) => if !st.in_heading {
            append(st, "\n"@)
        } else {
            st
        },
        MdEvent::End(MdTagEnd::Paragraph) => append(st, "\n"@),
        MdEvent::Text(s) => append(st, s@),
        MdEvent::Code(s) => append(st, s@),
        MdEvent::Html(s) => append(st, s@),
        MdEvent::SoftBreak => append(st, "\n"@),
        MdEvent::HardBreak => append(st, "\n"@),
        MdEvent::TaskListMarker(checked) => append(
            st,
            if checked {
                "[x] "@
            } else {
                "[ ] "@
            },
        ),
        MdEvent::FootnoteReference(s) => append(st, "["@ + s@ + "]"@),
        MdEvent::Rule => append(st, "\n---\n"@),
        _ => st,
    }
}

/// The state after `events`, with `images` collected before them.
pub open spec fn text_fold(events: Seq<MdEvent>, images: Seq<ImageView>) -> TextState
    decreases events.len(),
{
    if events.len() == 0 {
        TextState { text: seq![], link: None, in_heading: false, images }
    } else {
        text_step(text_fold(events.drop_last(), images), events.last())
    }
}

/// Appends the image of `url` when it is a `data:image/` URI that decodes.
fn collect_image_exec(images: &mut Vec<ExtractedImage>, url: &str)
    ensures
        images_view(final(images)@) == collect_image(images_view(old(images)@), url@),
{
    let u = str_chars(url);
    if starts_with_str(u.as_slice(), "data:image/") {
        let n = images.len();
        match decode_data_uri_image(url, n) {
            Some(i) => {
                let ghost before = images_view(images@);
                let ghost iv = i@;
                images.push(i);
                assert(images_view(images@) =~= before.push(iv));
            },
            None => {},
        }
    }
}

/// The plain text of an event stream; the images of its `data:` URIs are
/// appended to `images`, numbered on from those already there.
pub fn extract_text_from_events(events: &[MdEvent], images: &mut Vec<ExtractedImage>) -> (r: String)
    ensures
        r@ == text_fold(events@, images_view(old(images)@)).text,
        images_view(final(images)@) == text_fold(events@, images_view(old(images)@)).images,
{
    let ghost im0 = images_view(images@);
    let mut out: Vec<char> = Vec::new();
    let mut link: Option<Vec<char>> = None;
    let mut in_heading = false;
    let mut k: usize = 0;
    assert(events@.take(0) =~= Seq::<MdEvent>::empty());
    while k < events.len()
        invariant
            k <= events@.len(),
            im0 == images_view(old(images)@),
            text_fold(events@.take(k as int), im0) == (TextState {
                text: out@,
                link: match link {
                    Some(l) => Some(l@),
                    None => None,
                },
                in_heading,
                images: images_view(images@),
            }),
        decreases events@.len() - k,
    {
        assert(events@.take(k + 1).drop_last() =~= events@.take(k as int));
        let ghost before = out@;
        match &events[k] {
            MdEvent::Start(MdTag::Heading(h)) => {
                out.push('\n');
                let prefix = match h {
                    MdHeading::H1 => "# ",
                    MdHeading::H2 => "## ",
                    MdHeading::H3 => "### ",
                    MdHeading::H4 => "#### ",
                    MdHeading::H5 => "##### ",
                    MdHeading::H6 => "###### ",
                };
                push_str(&mut out, prefix);
                assert(out@ =~= before + "\n"@ + heading_prefix(*h)) by {
                    reveal_strlit("\n");
                }
                in_heading = true;
            },
            MdEvent::End(MdTagEnd::Heading) => {
                push_str(&mut out, "\n");
                in_heading = false;
            },
            MdEvent::Start(MdTag::Link(url, _)) => {
                link = Some(str_chars(url.as_str()));
            },
            MdEvent::End(MdTagEnd::Link) => {
                match link {
                    Some(u) => {
                        if u.len() > 0 && !starts_with_str(u.as_slice(), "#") {
                            push_str(&mut out, " (");
                            push_all(&mut out, u.as_slice());
                            push_str(&mut out, ")");
                            assert(out@ =~= before + " ("@ + u@ + ")"@);
                        }
                        link = None;
                    },
                    None => {},
                }
            },
            MdEvent::Start(MdTag::Image(url)) => {
                push_str(&mut out, "[Image");
                let ghost mid = out@;
                let u = str_chars(url.as_str());
                if u.len() > 0 {
                    push_str(&mut out, ": ");
                    push_all(&mut out, u.as_slice());
                    assert(out@ =~= mid + (": "@ + url@));
                } else {
                    assert(out@ =~= mid + Seq::<char>::empty());
                }
                push_str(&mut out, "]");
                collect_image_exec(images, url.as_str());
                assert(out@ =~= before + ("[Image"@ + (if url@.len() > 0 {
                    ": "@ + url@
                } else {
                    seq![]
                }) + "]"@));
            },
            MdEvent::Start(MdTag::CodeBlock(Some(lang))) => {
                push_str(&mut out, "\n```");
                push_str(&mut out, lang.as_str());
                push_str(&mut out, "\n");
                assert(out@ =~= before + ("\n```"@ + lang@ + "\n"@));
            },
            MdEvent::End(MdTagEnd::CodeBlock) => {
                push_str(&mut out, "```\n");
            },
            MdEvent::Start(MdTag::BlockQuote) => {
                push_str(&mut out, "\n> ");
            },
            MdEvent::Start(MdTag::Paragraph) => {
                if !in_heading {
                    push_str(&mut out, "\n");
                }
            },
            MdEvent::End(MdTagEnd::Paragraph) => {
                push_str(&mut out, "\n");
            },
            MdEvent::Text(s) => {
                push_str(&mut out, s.as_str());
            },
            MdEvent::Code(s) => {
                push_str(&mut out, s.as_str());
            },
            MdEvent::Html(s) => {
                push_str(&mut out, s.as_str());
            },
            MdEvent::SoftBreak => {
                push_str(&mut out, "\n");
            },
            MdEvent::HardBreak => {
                push_str(&mut out, "\n");
            },
            MdEvent::TaskListMarker(checked) => {
                if *checked {
                    push_str(&mut out, "[x] ");
                } else {
                    push_str(&mut out, "[ ] ");
                }
            },
            MdEvent::FootnoteReference(s) => {
                push_str(&mut out, "[");
                push_str(&mut out, s.as_str());
                push_str(&mut out, "]");
                assert(out@ =~= before + ("["@ + s@ + "]"@));
            },
            MdEvent::Rule => {
                push_str(&mut out, "\n---\n");
            },
            _ => {},
        }
        k = k + 1;
    }
    assert(events@.take(events@.len() as int) =~= events@);
    text::chars_string(out.as_slice())
}


// ---------------------------------------------------------------------------
// Reading Markdown text with `pulldown_cmark`
// ---------------------------------------------------------------------------

/// An event reported by `pulldown_cmark`, read through the functions below.
#[verifier::external_type_specification]
#[verifier::external_body]
pub struct ExCmarkEvent<'a>(pulldown_cmark::Event<'a>);

/// The tag of a `pulldown_cmark` start event.
#[verifier::external_type_specification]
#[verifier::external_body]
pub struct ExCmarkTag<'a>(pulldown_cmark::Tag<'a>);

/// The tag of a `pulldown_cmark` end event.
#[verifier::external_type_specification]
#[verifier::external_body]
pub struct ExCmarkTagEnd(pulldown_cmark::TagEnd);

/// The kind of a `pulldown_cmark` event, with its text where it has one.
pub enum CmarkShape {
    Start,
    End,
    Text(String),
    Code(String),
    Html(String),
    FootnoteReference(String),
    SoftBreak,
    HardBreak,
    Rule,
    TaskListMarker(bool),
    Other,
}

/// Tells the variants of `Event` apart.
#[verifier::external_body]
fn cm_shape(e: &Event) -> CmarkShape {
    match e {
        Event::Start(_) => CmarkShape::Start,
        Event::End(_) => CmarkShape::End,
        Event::Text(t) => CmarkShape::Text(t.to_string()),
        Event::Code(t) => CmarkShape::Code(t.to_string()),
        Event::Html(t) => CmarkShape::Html(t.to_string()),
        Event::FootnoteReference(t) => CmarkShape::FootnoteReference(t.to_string()),
        Event::SoftBreak => CmarkShape::SoftBreak,
        Event::HardBreak => CmarkShape::HardBreak,
        Event::Rule => CmarkShape::Rule,
        Event::TaskListMarker(b) => CmarkShape::TaskListMarker(*b),
        _ => CmarkShape::Other,
    }
}

/// The tag of a `Event::Start`.
#[verifier::external_body]
fn cm_start<'a>(e: &Event<'a>) -> Option<Tag<'a>> {
    match e {
        Event::Start(t) => Some(t.clone()),
        _ => None,
    }
}

/// The tag of a `Event::End`.
#[verifier::external_body]
fn cm_end(e: &Event) -> Option<TagEnd> {
    match e {
        Event::End(t) => Some(*t),
        _ => None,
    }
}

/// The level (1 to 6) of a `Tag::Heading`.
#[verifier::external_body]
fn cm_heading_level(t: &Tag) -> Option<u8> {
    match t {
        Tag::Heading { level, .. } => Some(*level as u8),
        _ => None,
    }
}

/// The block tags of `Tag` other than headings.
#[verifier::external_body]
fn cm_block_tag(t: &Tag) -> Option<MdTag> {
    match t {
        Tag::Paragraph => Some(MdTag::Paragraph),
        Tag::BlockQuote(_) => Some(MdTag::BlockQuote),
        Tag::CodeBlock(CodeBlockKind::Fenced(info)) => Some(MdTag::CodeBlock(Some(info.to_string()))),
        Tag::CodeBlock(CodeBlockKind::Indented) => Some(MdTag::CodeBlock(None)),
        Tag::List(start) => Some(MdTag::List(start.is_some())),
        Tag::Item => Some(MdTag::Item),
        Tag::FootnoteDefinition(label) => Some(MdTag::FootnoteDefinition(label.to_string())),
        _ => None,
    }
}

/// The inline and table tags of `Tag`.
#[verifier::external_body]
fn cm_inline_tag(t: &Tag) -> Option<MdTag> {
    match t {
        Tag::Link { dest_url, title, .. } => Some(MdTag::Link(dest_url.to_string(), title.to_string())),
        Tag::Image { dest_url, .. } => Some(MdTag::Image(dest_url.to_string())),
        Tag::Strong => Some(MdTag::Strong),
        Tag::Emphasis => Some(MdTag::Emphasis),
        Tag::Strikethrough => Some(MdTag::Strikethrough),
        Tag::Table(_) => Some(MdTag::Table),
        Tag::TableHead => Some(MdTag::TableHead),
        Tag::TableRow => Some(MdTag::TableRow),
        Tag::TableCell => Some(MdTag::TableCell),
        _ => None,
    }
}

/// The block end tags of `TagEnd`.
#[verifier::external_body]
fn cm_block_end(t: &TagEnd) -> Option<MdTagEnd> {
    match t {
        TagEnd::Paragraph => Some(MdTagEnd::Paragraph),
        TagEnd::Heading(_) => Some(MdTagEnd::Heading),
        TagEnd::CodeBlock => Some(MdTagEnd::CodeBlock),
        TagEnd::BlockQuote(_) => Some(MdTagEnd::BlockQuote),
        TagEnd::List(_) => Some(MdTagEnd::List),
        TagEnd::Item => Some(MdTagEnd::Item),
        TagEnd::FootnoteDefinition => Some(MdTagEnd::FootnoteDefinition),
        _ => None,
    }
}

/// The inline and table end tags of `TagEnd`.
#[verifier::external_body]
fn cm_inline_end(t: &TagEnd) -> Option<MdTagEnd> {
    match t {
        TagEnd::Link => Some(MdTagEnd::Link),
        TagEnd::Image => Some(MdTagEnd::Image),
        TagEnd::Strong => Some(MdTagEnd::Strong),
        TagEnd::Emphasis => Some(MdTagEnd::Emphasis),
        TagEnd::Strikethrough => Some(MdTagEnd::Strikethrough),
        TagEnd::Table => Some(MdTagEnd::Table),
        TagEnd::TableHead => Some(MdTagEnd::TableHead),
        TagEnd::TableRow => Some(MdTagEnd::TableRow),
        TagEnd::TableCell => Some(MdTagEnd::TableCell),
        _ => None,
    }
}

/// The heading level of its number (1 to 6; deeper numbers are level 6).
fn heading_of(level: u8) -> MdHeading {
    if level <= 1 {
        MdHeading::H1
    } else if level == 2 {
        MdHeading::H2
    } else if level == 3 {
        MdHeading::H3
    } else if level == 4 {
        MdHeading::H4
    } else if level == 5 {
        MdHeading::H5
    } else {
        MdHeading::H6
    }
}

/// A start tag in the library's form.
fn md_tag(t: &Tag) -> MdTag {
    match cm_heading_level(t) {
        Some(level) => MdTag::Heading(heading_of(level)),
        None => match cm_block_tag(t) {
            Some(m) => m,
            None => match cm_inline_tag(t) {
                Some(m) => m,
                None => MdTag::Other,
            },
        },
    }
}

/// An end tag in the library's form.
fn md_tag_end(t: &TagEnd) -> MdTagEnd {
    match cm_block_end(t) {
        Some(m) => m,
        None => match cm_inline_end(t) {
            Some(m) => m,
            None => MdTagEnd::Other,
        },
    }
}

/// An event in the library's form.
fn md_event(e: &Event) -> MdEvent {
    match cm_shape(e) {
        CmarkShape::Start => match cm_start(e) {
            Some(t) => MdEvent::Start(md_tag(&t)),
            None => MdEvent::Other,
        },
        CmarkShape::End => match cm_end(e) {
            Some(t) => MdEvent::End(md_tag_end(&t)),
            None => MdEvent::Other,
        },
        CmarkShape::Text(t) => MdEvent::Text(t),
        CmarkShape::Code(t) => MdEvent::Code(t),
        CmarkShape::Html(t) => MdEvent::Html(t),
        CmarkShape::FootnoteReference(t) => MdEvent::FootnoteReference(t),
        CmarkShape::SoftBreak => MdEvent::SoftBreak,
        CmarkShape::HardBreak => MdEvent::HardBreak,
        CmarkShape::Rule => MdEvent::Rule,
        CmarkShape::TaskListMarker(b) => MdEvent::TaskListMarker(b),
        CmarkShape::Other => MdEvent::Other,
    }
}

/// The events `Parser::new_ext` reports for `text` with tables,
/// strikethrough and footnotes enabled, in the library's form.
pub uninterp spec fn cmark_events(text: Seq<char>) -> Seq<MdEvent>;

/// `Parser::new_ext` with tables, strikethrough and footnotes:
/// the events of `text` in the library's form. The claim is that they depend
/// on the text alone.
#[verifier::external_body]
fn cmark_parse(text: &str) -> (r: Vec<MdEvent>)
    ensures
        r@ == cmark_events(text@),
{
    let options = Options::ENABLE_TABLES | Options::ENABLE_STRIKETHROUGH | Options::ENABLE_FOOTNOTES;
    Parser::new_ext(text, options).map(|e| md_event(&e)).collect()
}

/// The events of Markdown text, with tables, strikethrough and footnotes.
pub fn markdown_events(text: &str) -> (r: Vec<MdEvent>)
    ensures
        r@ == cmark_events(text@),
{
    cmark_parse(text)
}
} // verus!
