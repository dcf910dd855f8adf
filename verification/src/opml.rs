//! OPML (Outline Processor Markup Language): the extractor's description.

use vstd::prelude::*;
use crate::plugins::{ExtractorInfo, InfoView, KreuzbergError, VERSION, make_info, str_views};

verus! {

/// OPML extractor: outline structure and metadata.
pub struct OpmlExtractor;
impl Default for OpmlExtractor {
    fn default() -> (r: Self)
        ensures
            r == OpmlExtractor,
    {
        OpmlExtractor
    }
}
impl OpmlExtractor {
    /// A new extractor.
    pub fn new() -> (r: Self)
        ensures
            r == OpmlExtractor,
    {
        OpmlExtractor
    }

    /// The extractor's name.
    pub fn name(&self) -> (r: &'static str)
        ensures
            r@ == "opml-extractor"@,
    {
        "opml-extractor"
    }

    /// The library version.
    pub fn version(&self) -> (r: String)
        ensures
            r@ == VERSION@,
    {
        VERSION.to_owned()
    }

    /// Prepares the extractor; nothing can fail.
    pub fn initialize(&self) -> (r: Result<(), KreuzbergError>)
        ensures
            r is Ok,
    {
        Ok(())
    }

    /// Releases the extractor; nothing can fail.
    pub fn shutdown(&self) -> (r: Result<(), KreuzbergError>)
        ensures
            r is Ok,
    {
        Ok(())
    }

    /// What the extractor does.
    pub fn description(&self) -> (r: &'static str)
        ensures
            r@ == "Extracts content and metadata from OPML (Outline Processor Markup Language) documents"@,
    {
        "Extracts content and metadata from OPML (Outline Processor Markup Language) documents"
    }

    /// Who wrote the extractor.
    pub fn author(&self) -> (r: &'static str)
        ensures
            r@ == "Kreuzberg Team"@,
    {
        "Kreuzberg Team"
    }

    /// The MIME types the extractor handles.
    pub fn supported_mime_types(&self) -> (r: Vec<&'static str>)
        ensures
            str_views(r@) == seq!["text/x-opml"@, "application/xml+opml"@, "application/x-opml+xml"@],
    {
        let mut v: Vec<&'static str> = Vec::new();
        v.push("text/x-opml");
        v.push("application/xml+opml");
        v.push("application/x-opml+xml");
        assert(str_views(v@) =~= seq!["text/x-opml"@, "application/xml+opml"@, "application/x-opml+xml"@]);
        v
    }

    /// The extractor's priority among those handling the same MIME type.
    pub fn priority(&self) -> (r: i32)
        ensures
            r == 55,
    {
        55
    }

    /// The description the registry keeps of this extractor.
    pub open spec fn descriptor() -> InfoView {
        InfoView { name: "opml-extractor"@, priority: 55, mime_types: seq!["text/x-opml"@, "application/xml+opml"@, "application/x-opml+xml"@] }
    }

    /// The description the registry keeps.
    pub fn info(&self) -> (r: ExtractorInfo)
        ensures
            r@ == Self::descriptor(),
    {
        let m = self.supported_mime_types();
        make_info(self.name(), self.priority(), m.as_slice())
    }
}

} // verus!
