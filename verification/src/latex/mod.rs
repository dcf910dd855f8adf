//! LaTeX: a line-oriented parser to text, metadata and tables, and the
//! inline-markup stripper used for structured output.

pub mod structure;
pub mod builder;
pub mod commands;
pub mod environments;
pub mod helpers;
pub mod inline;
pub mod metadata;
pub mod parser;
pub mod utilities;

use vstd::prelude::*;
use crate::plugins::{ExtractorInfo, InfoView, KreuzbergError, VERSION, make_info, str_views};

verus! {

/// LaTeX document extractor.
pub struct LatexExtractor;
impl Default for LatexExtractor {
    fn default() -> (r: Self)
        ensures
            r == LatexExtractor,
    {
        LatexExtractor
    }
}
impl LatexExtractor {
    /// A new extractor.
    pub fn new() -> (r: Self)
        ensures
            r == LatexExtractor,
    {
        LatexExtractor
    }

    /// The extractor's name.
    pub fn name(&self) -> (r: &'static str)
        ensures
            r@ == "latex-extractor"@,
    {
        "latex-extractor"
    }

    /// The library version.
    pub fn version(&self) -> (r: String)
        ensures
            r@ == VERSION@,
    {
        VERSION.to_owned()
    }

    /// Prepares the extractor; nothing can fail.
    pub fn initialize(&self) -> (r: Result<(), KreuzbergError>)
        ensures
            r is Ok,
    {
        Ok(())
    }

    /// Releases the extractor; nothing can fail.
    pub fn shutdown(&self) -> (r: Result<(), KreuzbergError>)
        ensures
            r is Ok,
    {
        Ok(())
    }

    /// What the extractor does.
    pub fn description(&self) -> (r: &'static str)
        ensures
            r@ == "Native Rust LaTeX document extractor with metadata and table support"@,
    {
        "Native Rust LaTeX document extractor with metadata and table support"
    }

    /// Who wrote the extractor.
    pub fn author(&self) -> (r: &'static str)
        ensures
            r@ == "Kreuzberg Team"@,
    {
        "Kreuzberg Team"
    }

    /// The MIME types the extractor handles.
    pub fn supported_mime_types(&self) -> (r: Vec<&'static str>)
        ensures
            str_views(r@) == seq!["application/x-latex"@, "text/x-tex"@],
    {
        let mut v: Vec<&'static str> = Vec::new();
        v.push("application/x-latex");
        v.push("text/x-tex");
        assert(str_views(v@) =~= seq!["application/x-latex"@, "text/x-tex"@]);
        v
    }

    /// The extractor's priority among those handling the same MIME type.
    pub fn priority(&self) -> (r: i32)
        ensures
            r == 50,
    {
        50
    }

    /// The description the registry keeps of this extractor.
    pub open spec fn descriptor() -> InfoView {
        InfoView { name: "latex-extractor"@, priority: 50, mime_types: seq!["application/x-latex"@, "text/x-tex"@] }
    }

    /// The description the registry keeps.
    pub fn info(&self) -> (r: ExtractorInfo)
        ensures
            r@ == Self::descriptor(),
    {
        let m = self.supported_mime_types();
        make_info(self.name(), self.priority(), m.as_slice())
    }
}

} // verus!
