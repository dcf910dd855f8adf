//! Document extractors: the text logic of LaTeX, MDX, Org, iWork and other
//! formats, with contracts proved by Verus.

pub mod text;
pub mod latex;
pub mod types;
pub mod markdown_table;
pub mod plugins;
pub mod mdx;
pub mod fictionbook;
pub mod html;
pub mod hwp;
pub mod image;
pub mod iwork;
pub mod jats;
pub mod jupyter;
pub mod markdown;
pub mod markdown_utils;
pub mod markdown_builder;
pub mod odt;
pub mod xml;
pub mod json;
pub mod opml;
pub mod orgmode;
pub mod extractors;
pub mod frontmatter;
pub mod document;
