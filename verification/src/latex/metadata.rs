//! Title, author and date from a LaTeX preamble.

use vstd::prelude::*;
use crate::text;
use crate::text::{chars_string, starts_with_str, str_chars};
use crate::types::{Metadata, MetadataView, assoc_insert};
use super::utilities::{close_brace, extract_braced, spec_extract_braced};

verus! {

/// The metadata after reading one preamble line: `\title{..}` sets the title,
/// `\author{..}` the creator, and each is also kept among the additional entries
/// under `title` or `author`; `\date{..}` is kept only there, under `date`.
pub open spec fn spec_metadata_from_line(line: Seq<char>, m: MetadataView) -> MetadataView {
    if text::starts_with(line, "\\title{"@) {
        match spec_extract_braced(line, "title"@) {
            Some(v) => MetadataView {
                title: Some(v),
                additional: assoc_insert(m.additional, "title"@, v),
                ..m
            },
            None => m,
        }
    } else if text::starts_with(line, "\\author{"@) {
        match spec_extract_braced(line, "author"@) {
            Some(v) => MetadataView {
                created_by: Some(v),
                additional: assoc_insert(m.additional, "author"@, v),
                ..m
            },
            None => m,
        }
    } else if text::starts_with(line, "\\date{"@) {
        match spec_extract_braced(line, "date"@) {
            Some(v) => MetadataView { additional: assoc_insert(m.additional, "date"@, v), ..m },
            None => m,
        }
    } else {
        m
    }
}

/// Reads `\title{}`, `\author{}` and `\date{}` from a preamble line into `metadata`.
pub fn extract_metadata_from_line(line: &[char], metadata: &mut Metadata)
    ensures
        final(metadata)@ == spec_metadata_from_line(line@, old(metadata)@),
{
    if starts_with_str(line, "\\title{") {
        let name = str_chars("title");
        if let Some(v) = extract_braced(line, name.as_slice()) {
            metadata.title = Some(chars_string(v.as_slice()));
            metadata.insert_additional(chars_string(name.as_slice()), chars_string(v.as_slice()));
        }
    } else if starts_with_str(line, "\\author{") {
        let name = str_chars("author");
        if let Some(v) = extract_braced(line, name.as_slice()) {
            metadata.created_by = Some(chars_string(v.as_slice()));
            metadata.insert_additional(chars_string(name.as_slice()), chars_string(v.as_slice()));
        }
    } else if starts_with_str(line, "\\date{") {
        let name = str_chars("date");
        if let Some(v) = extract_braced(line, name.as_slice()) {
            metadata.insert_additional(chars_string(name.as_slice()), chars_string(v.as_slice()));
        }
    }
}


proof fn lemma_close_brace_none(s: Seq<char>, i: nat, depth: nat)
    requires
        forall|k: int| i <= k < s.len() ==> s[k] != '}',
    ensures
        close_brace(s, i, depth) is None,
    decreases s.len() - i,
{
    if i < s.len() {
        if s[i as int] == '{' {
            lemma_close_brace_none(s, i + 1, depth + 1);
        } else {
            lemma_close_brace_none(s, i + 1, depth);
        }
    }
}

/// A preamble line whose braces are never closed (it holds no `}`), or that
/// starts with none of `\title{`, `\author{` and `\date{`, leaves the metadata
/// as it was.
pub proof fn lemma_unclosed_line_changes_nothing(line: Seq<char>, m: MetadataView)
    requires
        !text::contains(line, "}"@) || !(text::starts_with(line, "\\title{"@) || text::starts_with(line, "\\author{"@)
            || text::starts_with(line, "\\date{"@)),
    ensures
        spec_metadata_from_line(line, m) == m,
{
    if !text::contains(line, "}"@) {
        assert forall|k: int| 0 <= k < line.len() implies line[k] != '}' by {
            if line[k] == '}' {
                assert(line.subrange(k, k + 1) =~= "}"@) by {
                    reveal_strlit("}");
                }
                text::lemma_find_from(line, "}"@, 0);
                assert(text::matches_at(line, k, "}"@));
            }
        }
        lemma_close_brace_none(line, 0, 1);
        assert forall|p: nat| #![auto] p <= line.len() implies close_brace(line, p, 1) is None by {
            lemma_close_brace_none(line, p, 1);
        }
    }
}

} // verus!
