//! Finding mermaid blocks in Markdown and HTML, and rewriting HTML pages.

pub mod html;
pub mod markdown;
pub mod rewrite;

pub use crate::entities::{decode_html_entities, escape_html};
pub use html::extract_from_html;
pub use markdown::extract_from_markdown;
pub use rewrite::{rewrite_html, rewrite_html_with, Outcome, RewriteReport};

use vstd::prelude::*;

verus! {

/// One mermaid block found in a document.
#[derive(Debug, Clone)]
pub struct Block {
    pub source: String,
}

/// The sources of a list of blocks.
pub open spec fn sources(blocks: Seq<Block>) -> Seq<Seq<char>> {
    blocks.map_values(|b: Block| b.source@)
}

} // verus!
