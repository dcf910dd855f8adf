//! Apple Numbers: the extractor's description.

use vstd::prelude::*;
use crate::plugins::{ExtractorInfo, InfoView, KreuzbergError, VERSION, make_info, str_views};
use crate::text;
use crate::text::{chars_string, str_chars};
use crate::types::{Metadata, MetadataView, rows_view, strs};
use crate::document::{add_elem, empty_doc, plain, DocView, ElemView, ElementKind, InternalDocument, InternalElement};
use super::pages::{apply_metadata, with_metadata};
use super::{
    collect_iwa_paths, dedup, dedup_text, extract_metadata_from_zip, framed_texts, iwa_names, keep, open_failed,
    read_texts, zip_metadata, zip_names, zip_plist_ok, zip_plist_well_formed,
};

verus! {

/// Apple Numbers spreadsheet extractor (`.numbers`, iWork 2013+).
pub struct NumbersExtractor;
impl Default for NumbersExtractor {
    fn default() -> (r: Self)
        ensures
            r == NumbersExtractor,
    {
        NumbersExtractor
    }
}
impl NumbersExtractor {
    /// A new extractor.
    pub fn new() -> (r: Self)
        ensures
            r == NumbersExtractor,
    {
        NumbersExtractor
    }

    /// The extractor's name.
    pub fn name(&self) -> (r: &'static str)
        ensures
            r@ == "iwork-numbers-extractor"@,
    {
        "iwork-numbers-extractor"
    }

    /// The library version.
    pub fn version(&self) -> (r: String)
        ensures
            r@ == VERSION@,
    {
        VERSION.to_owned()
    }

    /// Prepares the extractor; nothing can fail.
    pub fn initialize(&self) -> (r: Result<(), KreuzbergError>)
        ensures
            r is Ok,
    {
        Ok(())
    }

    /// Releases the extractor; nothing can fail.
    pub fn shutdown(&self) -> (r: Result<(), KreuzbergError>)
        ensures
            r is Ok,
    {
        Ok(())
    }

    /// What the extractor does.
    pub fn description(&self) -> (r: &'static str)
        ensures
            r@ == "Apple Numbers (.numbers) text extraction via IWA container parser"@,
    {
        "Apple Numbers (.numbers) text extraction via IWA container parser"
    }

    /// Who wrote the extractor.
    pub fn author(&self) -> (r: &'static str)
        ensures
            r@ == "Kreuzberg Team"@,
    {
        "Kreuzberg Team"
    }

    /// The MIME types the extractor handles.
    pub fn supported_mime_types(&self) -> (r: Vec<&'static str>)
        ensures
            str_views(r@) == seq!["application/x-iwork-numbers-sffnumbers"@],
    {
        let mut v: Vec<&'static str> = Vec::new();
        v.push("application/x-iwork-numbers-sffnumbers");
        assert(str_views(v@) =~= seq!["application/x-iwork-numbers-sffnumbers"@]);
        v
    }

    /// The extractor's priority among those handling the same MIME type.
    pub fn priority(&self) -> (r: i32)
        ensures
            r == 50,
    {
        50
    }

    /// The description the registry keeps of this extractor.
    pub open spec fn descriptor() -> InfoView {
        InfoView { name: "iwork-numbers-extractor"@, priority: 50, mime_types: seq!["application/x-iwork-numbers-sffnumbers"@] }
    }

    /// The description the registry keeps.
    pub fn info(&self) -> (r: ExtractorInfo)
        ensures
            r@ == Self::descriptor(),
    {
        let m = self.supported_mime_types();
        make_info(self.name(), self.priority(), m.as_slice())
    }
}

// ---------------------------------------------------------------------------
// Reading a Numbers archive
// ---------------------------------------------------------------------------

/// An IWA entry of table data: its path mentions `Table` or `DataStore`.
pub open spec fn table_path(p: Seq<char>) -> bool {
    text::contains(p, "Table"@) || text::contains(p, "DataStore"@)
}

/// The table entries and the others; all entries count as table entries when
/// none is one.
pub open spec fn numbers_parts(paths: Seq<Seq<char>>) -> (Seq<Seq<char>>, Seq<Seq<char>>) {
    let t = keep(paths, |p: Seq<char>| table_path(p));
    if t.len() == 0 {
        (paths, seq![])
    } else {
        (t, keep(paths, |p: Seq<char>| !table_path(p)))
    }
}

/// A cell value worth keeping: at least two bytes, with a letter or digit.
pub open spec fn cell_text(s: Seq<char>) -> bool {
    text::utf8_len(s) >= 2 && exists|k: int| 0 <= k < s.len() && (text::alphabetic(#[trigger] s[k]) || text::numeric(s[k]))
}

/// Sheets of a Numbers document (name and cell values) and its metadata.
pub struct NumbersData {
    pub sheets: Vec<(String, Vec<String>)>,
    pub metadata: Metadata,
}

/// The mathematical value of Numbers data.
pub struct NumbersView {
    pub sheets: Seq<(Seq<char>, Seq<Seq<char>>)>,
    pub meta: MetadataView,
}

impl View for NumbersData {
    type V = NumbersView;

    open spec fn view(&self) -> NumbersView {
        NumbersView {
            sheets: self.sheets@.map_values(|s: (String, Vec<String>)| (s.0@, strs(s.1@))),
            meta: self.metadata@,
        }
    }
}

/// What reading a Numbers archive gives: the cell values of the table entries as
/// "Sheet Data" and those of the others as "Document Info", each deduplicated and
/// filtered, a sheet only when it has values.
pub open spec fn spec_parse_numbers(content: Seq<u8>) -> Result<NumbersView, Seq<char>> {
    match zip_names(content) {
        Err(m) => Err(open_failed(m)),
        Ok(names) => {
            let (t, o) = numbers_parts(iwa_names(names));
            let tf = keep(dedup(framed_texts(content, t)), |s: Seq<char>| cell_text(s));
            let of = keep(dedup(framed_texts(content, o)), |s: Seq<char>| cell_text(s));
            Ok(
                NumbersView {
                    sheets: (if tf.len() > 0 {
                        seq![("Sheet Data"@, tf)]
                    } else {
                        seq![]
                    }) + (if of.len() > 0 {
                        seq![("Document Info"@, of)]
                    } else {
                        seq![]
                    }),
                    meta: zip_metadata(content),
                },
            )
        },
    }
}

/// Splits paths into table entries and others.
fn split_numbers_paths(paths: &Vec<String>) -> (r: (Vec<String>, Vec<String>))
    ensures
        (strs(r.0@), strs(r.1@)) == numbers_parts(strs(paths@)),
{
    let ghost pv = strs(paths@);
    let mut t: Vec<String> = Vec::new();
    let mut o: Vec<String> = Vec::new();
    let mut k: usize = 0;
    assert(pv.take(0) =~= Seq::<Seq<char>>::empty());
    assert(strs(t@) =~= Seq::<Seq<char>>::empty());
    assert(strs(o@) =~= Seq::<Seq<char>>::empty());
    while k < paths.len()
        invariant
            k <= paths@.len(),
            pv == strs(paths@),
            strs(t@) == keep(pv.take(k as int), |p: Seq<char>| table_path(p)),
            strs(o@) == keep(pv.take(k as int), |p: Seq<char>| !table_path(p)),
        decreases paths@.len() - k,
    {
        assert(pv.take(k + 1).drop_last() =~= pv.take(k as int));
        assert(pv.take(k + 1).last() == paths@[k as int]@);
        let c = str_chars(paths[k].as_str());
        let p = paths[k].clone();
        if text::contains_str(c.as_slice(), "Table") || text::contains_str(c.as_slice(), "DataStore") {
            let ghost before = strs(t@);
            t.push(p);
            assert(strs(t@) =~= before.push(paths@[k as int]@));
        } else {
            let ghost before = strs(o@);
            o.push(p);
            assert(strs(o@) =~= before.push(paths@[k as int]@));
        }
        k = k + 1;
    }
    assert(pv.take(k as int) =~= pv);
    if t.len() == 0 {
        let all = crate::types::copy_strs(paths);
        let none: Vec<String> = Vec::new();
        assert(strs(none@) =~= Seq::<Seq<char>>::empty());
        (all, none)
    } else {
        (t, o)
    }
}

/// Whether some character is alphabetic or numeric.
fn has_alphanumeric(s: &[char]) -> (r: bool)
    ensures
        r == exists|k: int| 0 <= k < s@.len() && (text::alphabetic(#[trigger] s@[k]) || text::numeric(s@[k])),
{
    let mut k: usize = 0;
    while k < s.len()
        invariant
            k <= s@.len(),
            forall|j: int| 0 <= j < k ==> !(text::alphabetic(#[trigger] s@[j]) || text::numeric(s@[j])),
        decreases s@.len() - k,
    {
        if text::is_alphabetic(s[k]) || text::is_numeric(s[k]) {
            return true;
        }
        k = k + 1;
    }
    false
}

/// The values worth keeping.
fn keep_cells(v: Vec<String>) -> (r: Vec<String>)
    ensures
        strs(r@) == keep(strs(v@), |s: Seq<char>| cell_text(s)),
{
    let ghost sv = strs(v@);
    let mut out: Vec<String> = Vec::new();
    let mut k: usize = 0;
    assert(sv.take(0) =~= Seq::<Seq<char>>::empty());
    assert(strs(out@) =~= Seq::<Seq<char>>::empty());
    while k < v.len()
        invariant
            k <= v@.len(),
            sv == strs(v@),
            strs(out@) == keep(sv.take(k as int), |s: Seq<char>| cell_text(s)),
        decreases v@.len() - k,
    {
        assert(sv.take(k + 1).drop_last() =~= sv.take(k as int));
        assert(sv.take(k + 1).last() == v@[k as int]@);
        let c = str_chars(v[k].as_str());
        let n = text::utf8_len_exec(c.as_slice());
        if n >= 2 && has_alphanumeric(c.as_slice()) {
            let ghost before = strs(out@);
            let x = v[k].clone();
            out.push(x);
            assert(strs(out@) =~= before.push(x@));
        }
        k = k + 1;
    }
    assert(sv.take(k as int) =~= sv);
    out
}

/// Reads a Numbers archive into sheets of cell values and the metadata.
pub(crate) fn parse_numbers(content: &[u8]) -> (r: Result<NumbersData, KreuzbergError>)
    requires
        zip_plist_ok(content@),
    ensures
        match spec_parse_numbers(content@) {
            Ok(v) => r matches Ok(p) && p@ == v,
            Err(m) => r matches Err(KreuzbergError::Parsing(x)) && x@ == m,
        },
{
    let iwa_paths = match collect_iwa_paths(content) {
        Ok(p) => p,
        Err(e) => {
            return Err(e);
        },
    };
    let metadata = extract_metadata_from_zip(content);
    let (table_paths, other_paths) = split_numbers_paths(&iwa_paths);
    let table_texts = read_texts(content, &table_paths);
    let other_texts = read_texts(content, &other_paths);
    let tf = keep_cells(dedup_text(table_texts));
    let of = keep_cells(dedup_text(other_texts));
    let mut sheets: Vec<(String, Vec<String>)> = Vec::new();
    let ghost tv = strs(tf@);
    let ghost ov = strs(of@);
    if tf.len() > 0 {
        sheets.push(("Sheet Data".to_owned(), tf));
    }
    if of.len() > 0 {
        sheets.push(("Document Info".to_owned(), of));
    }
    let data = NumbersData { sheets, metadata };
    assert(data@.sheets =~= (if tv.len() > 0 {
        seq![("Sheet Data"@, tv)]
    } else {
        seq![]
    }) + (if ov.len() > 0 {
        seq![("Document Info"@, ov)]
    } else {
        seq![]
    }));
    Ok(data)
}

/// One-cell rows of the values.
pub open spec fn single_cells(values: Seq<Seq<char>>) -> Seq<Seq<Seq<char>>> {
    values.map_values(|v: Seq<char>| seq![v])
}

/// The document of the sheets from `d` on: each sheet with values as a level-one
/// heading and a table of one-cell rows.
pub open spec fn add_sheets(d: DocView, sheets: Seq<(Seq<char>, Seq<Seq<char>>)>) -> DocView
    decreases sheets.len(),
{
    if sheets.len() == 0 {
        d
    } else {
        let d2 = add_sheets(d, sheets.drop_last());
        let (name, values) = sheets.last();
        if values.len() == 0 {
            d2
        } else {
            add_elem(
                add_elem(d2, plain(ElementKind::Heading { level: 1 }, name)),
                ElemView {
                    kind: ElementKind::Table,
                    text: seq![],
                    anns: seq![],
                    attrs: seq![],
                    cells: single_cells(values),
                    anchor: None,
                },
            )
        }
    }
}

/// The document of Numbers data.
pub open spec fn numbers_doc(v: NumbersView) -> DocView {
    add_sheets(with_metadata(empty_doc(), v.meta), v.sheets)
}

/// The document of Numbers data.
pub fn build_numbers_internal_document(data: &NumbersData) -> (r: InternalDocument)
    ensures
        r@ == numbers_doc(data@),
        r.source_format@ == "numbers"@,
{
    let mut doc = InternalDocument::new("numbers");
    apply_metadata(&mut doc, &data.metadata);
    let ghost sv = data@.sheets;
    let ghost d0 = doc@;
    let mut k: usize = 0;
    assert(sv.take(0) =~= Seq::<(Seq<char>, Seq<Seq<char>>)>::empty());
    while k < data.sheets.len()
        invariant
            k <= data.sheets@.len(),
            sv == data@.sheets,
            doc@ == add_sheets(d0, sv.take(k as int)),
            doc.source_format@ == "numbers"@,
        decreases data.sheets@.len() - k,
    {
        assert(sv.take(k + 1).drop_last() =~= sv.take(k as int));
        assert(sv.take(k + 1).last() == sv[k as int]);
        let (name, values) = (&data.sheets[k].0, &data.sheets[k].1);
        if values.len() > 0 {
            let nc = str_chars(name.as_str());
            doc.push_plain(ElementKind::Heading { level: 1 }, nc.as_slice());
            let mut cells: Vec<Vec<String>> = Vec::new();
            let mut m: usize = 0;
            assert(rows_view(cells@) =~= single_cells(strs(values@)).take(0));
            while m < values.len()
                invariant
                    m <= values@.len(),
                    rows_view(cells@) == single_cells(strs(values@)).take(m as int),
                decreases values@.len() - m,
            {
                let mut row: Vec<String> = Vec::new();
                let x = values[m].clone();
                row.push(x);
                let ghost before = rows_view(cells@);
                let ghost rv = strs(row@);
                assert(rv =~= seq![values@[m as int]@]);
                cells.push(row);
                assert(rows_view(cells@) =~= before.push(rv));
                assert(single_cells(strs(values@)).take(m + 1) =~= single_cells(strs(values@)).take(m as int).push(
                    seq![values@[m as int]@],
                ));
                m = m + 1;
            }
            assert(single_cells(strs(values@)).take(m as int) =~= single_cells(strs(values@)));
            let e = InternalElement {
                kind: ElementKind::Table,
                text: String::new(),
                annotations: Vec::new(),
                attributes: Vec::new(),
                cells,
                anchor: None,
            };
            assert(e@.anns =~= Seq::<crate::types::AnnView>::empty());
            assert(e@.attrs =~= Seq::<(Seq<char>, Seq<char>)>::empty());
            assert(e@.text =~= Seq::<char>::empty());
            doc.push_element(e);
        }
        k = k + 1;
    }
    assert(sv.take(k as int) =~= sv);
    doc
}

impl NumbersExtractor {
    /// Extracts a Numbers document: its sheets as headings with tables, and its
    /// metadata.
    pub fn extract_bytes(&self, content: &[u8], mime_type: &str) -> (r: Result<InternalDocument, KreuzbergError>)
        requires
            zip_plist_ok(content@),
        ensures
            match spec_parse_numbers(content@) {
                Ok(v) => r matches Ok(d) && d@ == numbers_doc(v) && d.mime_type@ == mime_type@,
                Err(m) => r matches Err(KreuzbergError::Parsing(x)) && x@ == m,
            },
    {
        let data = match parse_numbers(content) {
            Ok(d) => d,
            Err(e) => {
                return Err(e);
            },
        };
        let mut doc = build_numbers_internal_document(&data);
        doc.mime_type = mime_type.to_owned();
        Ok(doc)
    }

    /// `extract_bytes` when the archive's plist metadata is readable; `None`
    /// otherwise.
    pub fn try_extract_bytes(&self, content: &[u8], mime_type: &str) -> (r: Option<Result<InternalDocument, KreuzbergError>>)
        ensures
            !zip_plist_ok(content@) ==> r is None,
            zip_plist_ok(content@) ==> (r matches Some(x) && match spec_parse_numbers(content@) {
                Ok(v) => x matches Ok(d) && d@ == numbers_doc(v) && d.mime_type@ == mime_type@,
                Err(m) => x matches Err(KreuzbergError::Parsing(e)) && e@ == m,
            }),
    {
        if zip_plist_well_formed(content) {
            Some(self.extract_bytes(content, mime_type))
        } else {
            None
        }
    }
}

} // verus!
