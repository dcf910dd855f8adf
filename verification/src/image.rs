//! Images: the extractor's description and the structured document of an
//! image extraction.

use vstd::prelude::*;
use crate::plugins::{ExtractorInfo, InfoView, KreuzbergError, VERSION, make_info, str_views};
use crate::text;
use crate::text::{str_chars, trim_vec};
use crate::types::{ExtractedImage, ImageView};
use crate::document::{add_elem, add_image, empty_doc, plain, DocView, ElementKind, InternalDocument};

verus! {

/// Image extractor: PNG, JPEG, WebP, BMP, TIFF, GIF and their aliases.
pub struct ImageExtractor;
impl Default for ImageExtractor {
    fn default() -> (r: Self)
        ensures
            r == ImageExtractor,
    {
        ImageExtractor
    }
}
impl ImageExtractor {
    /// A new extractor.
    pub fn new() -> (r: Self)
        ensures
            r == ImageExtractor,
    {
        ImageExtractor
    }

    /// The extractor's name.
    pub fn name(&self) -> (r: &'static str)
        ensures
            r@ == "image-extractor"@,
    {
        "image-extractor"
    }

    /// The library version.
    pub fn version(&self) -> (r: String)
        ensures
            r@ == VERSION@,
    {
        VERSION.to_owned()
    }

    /// Prepares the extractor; nothing can fail.
    pub fn initialize(&self) -> (r: Result<(), KreuzbergError>)
        ensures
            r is Ok,
    {
        Ok(())
    }

    /// Releases the extractor; nothing can fail.
    pub fn shutdown(&self) -> (r: Result<(), KreuzbergError>)
        ensures
            r is Ok,
    {
        Ok(())
    }

    /// What the extractor does.
    pub fn description(&self) -> (r: &'static str)
        ensures
            r@ == "Extracts dimensions, format, and EXIF data from images (PNG, JPEG, WebP, BMP, TIFF, GIF)"@,
    {
        "Extracts dimensions, format, and EXIF data from images (PNG, JPEG, WebP, BMP, TIFF, GIF)"
    }

    /// Who wrote the extractor.
    pub fn author(&self) -> (r: &'static str)
        ensures
            r@ == "Kreuzberg Team"@,
    {
        "Kreuzberg Team"
    }

    /// The MIME types the extractor handles.
    pub fn supported_mime_types(&self) -> (r: Vec<&'static str>)
        ensures
            str_views(r@) == seq!["image/png"@, "image/jpeg"@, "image/jpg"@, "image/pjpeg"@, "image/webp"@, "image/bmp"@, "image/x-bmp"@, "image/x-ms-bmp"@, "image/tiff"@, "image/x-tiff"@, "image/gif"@, "image/jp2"@, "image/jpx"@, "image/jpm"@, "image/mj2"@, "image/x-jbig2"@, "image/x-portable-anymap"@, "image/x-portable-bitmap"@, "image/x-portable-graymap"@, "image/x-portable-pixmap"@],
    {
        let mut v: Vec<&'static str> = Vec::new();
        v.push("image/png");
        v.push("image/jpeg");
        v.push("image/jpg");
        v.push("image/pjpeg");
        v.push("image/webp");
        v.push("image/bmp");
        v.push("image/x-bmp");
        v.push("image/x-ms-bmp");
        v.push("image/tiff");
        v.push("image/x-tiff");
        v.push("image/gif");
        v.push("image/jp2");
        v.push("image/jpx");
        v.push("image/jpm");
        v.push("image/mj2");
        v.push("image/x-jbig2");
        v.push("image/x-portable-anymap");
        v.push("image/x-portable-bitmap");
        v.push("image/x-portable-graymap");
        v.push("image/x-portable-pixmap");
        assert(str_views(v@) =~= seq!["image/png"@, "image/jpeg"@, "image/jpg"@, "image/pjpeg"@, "image/webp"@, "image/bmp"@, "image/x-bmp"@, "image/x-ms-bmp"@, "image/tiff"@, "image/x-tiff"@, "image/gif"@, "image/jp2"@, "image/jpx"@, "image/jpm"@, "image/mj2"@, "image/x-jbig2"@, "image/x-portable-anymap"@, "image/x-portable-bitmap"@, "image/x-portable-graymap"@, "image/x-portable-pixmap"@]);
        v
    }

    /// The extractor's priority among those handling the same MIME type.
    pub fn priority(&self) -> (r: i32)
        ensures
            r == 50,
    {
        50
    }

    /// The description the registry keeps of this extractor.
    pub open spec fn descriptor() -> InfoView {
        InfoView { name: "image-extractor"@, priority: 50, mime_types: seq!["image/png"@, "image/jpeg"@, "image/jpg"@, "image/pjpeg"@, "image/webp"@, "image/bmp"@, "image/x-bmp"@, "image/x-ms-bmp"@, "image/tiff"@, "image/x-tiff"@, "image/gif"@, "image/jp2"@, "image/jpx"@, "image/jpm"@, "image/mj2"@, "image/x-jbig2"@, "image/x-portable-anymap"@, "image/x-portable-bitmap"@, "image/x-portable-graymap"@, "image/x-portable-pixmap"@] }
    }

    /// The description the registry keeps.
    pub fn info(&self) -> (r: ExtractorInfo)
        ensures
            r@ == Self::descriptor(),
    {
        let m = self.supported_mime_types();
        make_info(self.name(), self.priority(), m.as_slice())
    }
}


/// The document of an image: its OCR text as a paragraph, when not blank, then
/// the image: stored with the document and referred to by an image element,
/// or, without its data, an empty image element of index 0.
pub open spec fn spec_image_document(ocr_text: Option<Seq<char>>, image: Option<ImageView>) -> DocView {
    let d = match ocr_text {
        Some(t) => if text::trim(t).len() > 0 {
            add_elem(empty_doc(), plain(ElementKind::Paragraph, text::trim(t)))
        } else {
            empty_doc()
        },
        None => empty_doc(),
    };
    match image {
        Some(img) => add_image(d, seq![], img),
        None => add_elem(d, plain(ElementKind::Image { image_index: 0 }, seq![])),
    }
}

/// The structured document of an image extraction: the OCR text (trimmed) as
/// a paragraph when it is not blank, then the image itself.
pub fn build_image_internal_document(ocr_text: Option<&str>, image_data: Option<ExtractedImage>) -> (r: InternalDocument)
    ensures
        r@ == spec_image_document(
            match ocr_text {
                Some(t) => Some(t@),
                None => None,
            },
            match image_data {
                Some(i) => Some(i@),
                None => None,
            },
        ),
        r.source_format@ == "image"@,
{
    let mut d = InternalDocument::new("image");
    match ocr_text {
        Some(t) => {
            let tc = str_chars(t);
            let tt = trim_vec(tc.as_slice());
            if tt.len() > 0 {
                d.push_plain(ElementKind::Paragraph, tt.as_slice());
            }
        },
        None => {},
    }
    match image_data {
        Some(img) => d.push_image(None, img),
        None => {
            let none: Vec<char> = Vec::new();
            d.push_plain(ElementKind::Image { image_index: 0 }, none.as_slice());
        },
    }
    d
}

} // verus!
