//! Markdown: the extractor's description.

use vstd::prelude::*;
use crate::plugins::{ExtractorInfo, InfoView, KreuzbergError, VERSION, make_info, str_views};
use crate::markdown_utils::{cmark_events, extract_text_from_events, markdown_events, text_fold};
use crate::markdown_builder::{spec_markdown_document, spec_mdx_document};
use crate::frontmatter::{document_metadata, extract_frontmatter, metadata_entries, spec_document_metadata, spec_frontmatter, spec_metadata_entries};
use crate::fictionbook::{from_utf8_lossy, utf8_lossy};
use crate::mdx::{MdxExtractor, spec_strip_mdx};
use crate::document::{DocView, InternalDocument};
use crate::types::{ExtractedImage, ImageView, images_view};
use crate::text::str_chars;

verus! {

/// Markdown extractor: YAML frontmatter, text, tables and document structure.
pub struct MarkdownExtractor;
impl Default for MarkdownExtractor {
    fn default() -> (r: Self)
        ensures
            r == MarkdownExtractor,
    {
        MarkdownExtractor
    }
}
impl MarkdownExtractor {
    /// A new extractor.
    pub fn new() -> (r: Self)
        ensures
            r == MarkdownExtractor,
    {
        MarkdownExtractor
    }

    /// The extractor's name.
    pub fn name(&self) -> (r: &'static str)
        ensures
            r@ == "markdown-extractor"@,
    {
        "markdown-extractor"
    }

    /// The library version.
    pub fn version(&self) -> (r: String)
        ensures
            r@ == VERSION@,
    {
        VERSION.to_owned()
    }

    /// Prepares the extractor; nothing can fail.
    pub fn initialize(&self) -> (r: Result<(), KreuzbergError>)
        ensures
            r is Ok,
    {
        Ok(())
    }

    /// Releases the extractor; nothing can fail.
    pub fn shutdown(&self) -> (r: Result<(), KreuzbergError>)
        ensures
            r is Ok,
    {
        Ok(())
    }

    /// What the extractor does.
    pub fn description(&self) -> (r: &'static str)
        ensures
            r@ == "Extracts content from Markdown files with YAML frontmatter and table support"@,
    {
        "Extracts content from Markdown files with YAML frontmatter and table support"
    }

    /// Who wrote the extractor.
    pub fn author(&self) -> (r: &'static str)
        ensures
            r@ == "Kreuzberg Team"@,
    {
        "Kreuzberg Team"
    }

    /// The MIME types the extractor handles.
    pub fn supported_mime_types(&self) -> (r: Vec<&'static str>)
        ensures
            str_views(r@) == seq!["text/markdown"@, "text/x-markdown"@, "text/x-gfm"@, "text/x-commonmark"@, "text/x-markdown-extra"@, "text/x-multimarkdown"@],
    {
        let mut v: Vec<&'static str> = Vec::new();
        v.push("text/markdown");
        v.push("text/x-markdown");
        v.push("text/x-gfm");
        v.push("text/x-commonmark");
        v.push("text/x-markdown-extra");
        v.push("text/x-multimarkdown");
        assert(str_views(v@) =~= seq!["text/markdown"@, "text/x-markdown"@, "text/x-gfm"@, "text/x-commonmark"@, "text/x-markdown-extra"@, "text/x-multimarkdown"@]);
        v
    }

    /// The extractor's priority among those handling the same MIME type.
    pub fn priority(&self) -> (r: i32)
        ensures
            r == 50,
    {
        50
    }

    /// The description the registry keeps of this extractor.
    pub open spec fn descriptor() -> InfoView {
        InfoView { name: "markdown-extractor"@, priority: 50, mime_types: seq!["text/markdown"@, "text/x-markdown"@, "text/x-gfm"@, "text/x-commonmark"@, "text/x-markdown-extra"@, "text/x-multimarkdown"@] }
    }

    /// The description the registry keeps.
    pub fn info(&self) -> (r: ExtractorInfo)
        ensures
            r@ == Self::descriptor(),
    {
        let m = self.supported_mime_types();
        make_info(self.name(), self.priority(), m.as_slice())
    }
}


/// The document of Markdown text: the events of the text after its front
/// matter built with the front matter's entries, and the metadata of the front
/// matter (the first level-one heading as title where it gives none).
pub open spec fn spec_markdown_text_document(text: Seq<char>) -> DocView {
    let (yaml, rest) = spec_frontmatter(text);
    let d = spec_markdown_document(cmark_events(rest), spec_metadata_entries(text));
    DocView { meta: spec_document_metadata(yaml, rest), ..d }
}

/// The document of MDX text whose front matter leaves `rest`: the events of
/// `rest` with its MDX syntax stripped, built with the front matter's entries
/// and the JSX blocks, and the metadata of the front matter.
pub open spec fn spec_mdx_text_document(text: Seq<char>) -> DocView {
    let (yaml, rest) = spec_frontmatter(text);
    let (clean, blocks) = spec_strip_mdx(rest);
    let d = spec_mdx_document(cmark_events(clean), spec_metadata_entries(text), blocks);
    DocView { meta: spec_document_metadata(yaml, clean), ..d }
}

impl MarkdownExtractor {
    /// The structured document of a Markdown file's bytes (read as UTF-8,
    /// invalid sequences replaced) with its MIME type, and the images of the
    /// `data:` URIs in it.
    pub fn extract_bytes(content: &[u8], mime_type: &str) -> (r: (InternalDocument, Vec<ExtractedImage>))
        ensures
            r.0@ == spec_markdown_text_document(utf8_lossy(content@)),
            r.0.mime_type@ == mime_type@,
            r.0.source_format@ == "markdown"@,
            images_view(r.1@) == text_fold(cmark_events(spec_frontmatter(utf8_lossy(content@)).1), seq![]).images,
    {
        let text = from_utf8_lossy(content);
        let (yaml, remaining) = extract_frontmatter(text.as_str());
        let entries = metadata_entries(text.as_str());
        let metadata = document_metadata(&yaml, remaining.as_str());
        let events = markdown_events(remaining.as_str());
        let mut images: Vec<ExtractedImage> = Vec::new();
        assert(images_view(images@) =~= Seq::<ImageView>::empty());
        let _ = extract_text_from_events(events.as_slice(), &mut images);
        let mut doc = MarkdownExtractor::build_internal_document(events.as_slice(), entries.as_slice());
        doc.metadata = metadata;
        doc.mime_type = mime_type.to_string();
        (doc, images)
    }
}

impl MdxExtractor {
    /// The structured document of an MDX file's bytes (read as UTF-8, invalid
    /// sequences replaced) with its MIME type, and the images of the `data:`
    /// URIs in it; an error where the text after the front matter has more
    /// characters than the brace counter of the MDX stripper can count.
    pub fn extract_bytes(content: &[u8], mime_type: &str) -> (r: Result<(InternalDocument, Vec<ExtractedImage>), KreuzbergError>)
        ensures
            spec_frontmatter(utf8_lossy(content@)).1.len() <= i32::MAX ==> (r matches Ok(p) && {
                &&& p.0@ == spec_mdx_text_document(utf8_lossy(content@))
                &&& p.0.mime_type@ == mime_type@
                &&& p.0.source_format@ == "mdx"@
                &&& images_view(p.1@) == text_fold(cmark_events(spec_strip_mdx(spec_frontmatter(utf8_lossy(content@)).1).0), seq![]).images
            }),
            spec_frontmatter(utf8_lossy(content@)).1.len() > i32::MAX ==> r is Err,
    {
        let text = from_utf8_lossy(content);
        let (yaml, remaining) = extract_frontmatter(text.as_str());
        let rc = str_chars(remaining.as_str());
        if rc.len() > 2147483647 {
            return Err(KreuzbergError::Parsing("MDX text too long to count its braces".to_string()));
        }
        let entries = metadata_entries(text.as_str());
        let (clean, jsx_blocks) = MdxExtractor::strip_mdx_syntax_collecting(remaining.as_str());
        let metadata = document_metadata(&yaml, clean.as_str());
        let events = markdown_events(clean.as_str());
        let mut images: Vec<ExtractedImage> = Vec::new();
        assert(images_view(images@) =~= Seq::<ImageView>::empty());
        let _ = extract_text_from_events(events.as_slice(), &mut images);
        let mut doc = MdxExtractor::build_internal_document(events.as_slice(), entries.as_slice(), jsx_blocks.as_slice());
        doc.metadata = metadata;
        doc.mime_type = mime_type.to_string();
        Ok((doc, images))
    }
}

} // verus!
