# kreuzberg

Document extraction for text formats — LaTeX, Markdown and MDX, Org, Jupyter
notebooks, iWork (Pages, Numbers, Keynote), ODT, HWP, OPML and others — written
in Verus: each extractor's logic carries a contract, and Verus proves the code
against it.

## Layout

- `src/` — the verified library.
  - `text.rs`: characters, trimming, searching, lines, UTF-8 lengths.
  - `types.rs`, `document.rs`: metadata, tables, images, annotations, and the
    structured document the builders produce (elements, URIs, relationships).
  - one module per format: `latex/`, `markdown_builder.rs`, `markdown_utils.rs`,
    `mdx.rs`, `orgmode/`, `jupyter.rs` with `json.rs`, `iwork/`, `odt.rs` with
    `xml.rs`, `hwp.rs`, `opml.rs`, `frontmatter.rs`, `fictionbook.rs`, ...
  - `plugins.rs`, `extractors.rs`: the registry of extractors and its laws.
- `tests/` — tests that run the library on concrete input.
- `app/` — what stands around the library: an error type with `Display`, and
  entry points that hand the library its input.

Calls into outside crates stand in `src/` behind small trusted wrappers:
regular expressions, zip archives, Snappy, base64, file-type detection, and the
parsers of Markdown (`pulldown-cmark`), YAML (`serde_yaml_ng`), XML
(`roxmltree`), Org (`org`) and JSON (`serde_json`). A parser's tree is read into
the library's own types by verified code that calls one wrapper per accessor.
Where an outside result is not stated in full, it is named by a spec function
of its arguments (`cmark_events`, `yaml_parsed`, `xml_parsed`, `org_parsed`,
`json_parsed`, `json_rendered`, ...), and the library's contracts speak of that
name.
