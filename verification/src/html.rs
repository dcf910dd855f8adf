//! HTML: the extractor's description.

use vstd::prelude::*;
use crate::plugins::{ExtractorInfo, InfoView, KreuzbergError, VERSION, make_info, str_views};

verus! {

/// HTML document extractor.
pub struct HtmlExtractor;
impl Default for HtmlExtractor {
    fn default() -> (r: Self)
        ensures
            r == HtmlExtractor,
    {
        HtmlExtractor
    }
}
impl HtmlExtractor {
    /// A new extractor.
    pub fn new() -> (r: Self)
        ensures
            r == HtmlExtractor,
    {
        HtmlExtractor
    }

    /// The extractor's name.
    pub fn name(&self) -> (r: &'static str)
        ensures
            r@ == "html-extractor"@,
    {
        "html-extractor"
    }

    /// The library version.
    pub fn version(&self) -> (r: String)
        ensures
            r@ == VERSION@,
    {
        VERSION.to_owned()
    }

    /// Prepares the extractor; nothing can fail.
    pub fn initialize(&self) -> (r: Result<(), KreuzbergError>)
        ensures
            r is Ok,
    {
        Ok(())
    }

    /// Releases the extractor; nothing can fail.
    pub fn shutdown(&self) -> (r: Result<(), KreuzbergError>)
        ensures
            r is Ok,
    {
        Ok(())
    }

    /// The MIME types the extractor handles.
    pub fn supported_mime_types(&self) -> (r: Vec<&'static str>)
        ensures
            str_views(r@) == seq!["text/html"@, "application/xhtml+xml"@],
    {
        let mut v: Vec<&'static str> = Vec::new();
        v.push("text/html");
        v.push("application/xhtml+xml");
        assert(str_views(v@) =~= seq!["text/html"@, "application/xhtml+xml"@]);
        v
    }

    /// The extractor's priority among those handling the same MIME type.
    pub fn priority(&self) -> (r: i32)
        ensures
            r == 50,
    {
        50
    }

    /// The description the registry keeps of this extractor.
    pub open spec fn descriptor() -> InfoView {
        InfoView { name: "html-extractor"@, priority: 50, mime_types: seq!["text/html"@, "application/xhtml+xml"@] }
    }

    /// The description the registry keeps.
    pub fn info(&self) -> (r: ExtractorInfo)
        ensures
            r@ == Self::descriptor(),
    {
        let m = self.supported_mime_types();
        make_info(self.name(), self.priority(), m.as_slice())
    }
}

} // verus!
