//! JATS (Journal Article Tag Suite): the extractor's description.

use vstd::prelude::*;
use crate::plugins::{ExtractorInfo, InfoView, KreuzbergError, VERSION, make_info, str_views};

verus! {

/// JATS document extractor.
pub struct JatsExtractor;
impl Default for JatsExtractor {
    fn default() -> (r: Self)
        ensures
            r == JatsExtractor,
    {
        JatsExtractor
    }
}
impl JatsExtractor {
    /// A new extractor.
    pub fn new() -> (r: Self)
        ensures
            r == JatsExtractor,
    {
        JatsExtractor
    }

    /// The extractor's name.
    pub fn name(&self) -> (r: &'static str)
        ensures
            r@ == "jats-extractor"@,
    {
        "jats-extractor"
    }

    /// The library version.
    pub fn version(&self) -> (r: String)
        ensures
            r@ == VERSION@,
    {
        VERSION.to_owned()
    }

    /// Prepares the extractor; nothing can fail.
    pub fn initialize(&self) -> (r: Result<(), KreuzbergError>)
        ensures
            r is Ok,
    {
        Ok(())
    }

    /// Releases the extractor; nothing can fail.
    pub fn shutdown(&self) -> (r: Result<(), KreuzbergError>)
        ensures
            r is Ok,
    {
        Ok(())
    }

    /// The MIME types the extractor handles.
    pub fn supported_mime_types(&self) -> (r: Vec<&'static str>)
        ensures
            str_views(r@) == seq!["application/x-jats+xml"@, "text/jats"@],
    {
        let mut v: Vec<&'static str> = Vec::new();
        v.push("application/x-jats+xml");
        v.push("text/jats");
        assert(str_views(v@) =~= seq!["application/x-jats+xml"@, "text/jats"@]);
        v
    }

    /// The extractor's priority among those handling the same MIME type.
    pub fn priority(&self) -> (r: i32)
        ensures
            r == 50,
    {
        50
    }

    /// The description the registry keeps of this extractor.
    pub open spec fn descriptor() -> InfoView {
        InfoView { name: "jats-extractor"@, priority: 50, mime_types: seq!["application/x-jats+xml"@, "text/jats"@] }
    }

    /// The description the registry keeps.
    pub fn info(&self) -> (r: ExtractorInfo)
        ensures
            r@ == Self::descriptor(),
    {
        let m = self.supported_mime_types();
        make_info(self.name(), self.priority(), m.as_slice())
    }
}

} // verus!
