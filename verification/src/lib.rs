//! Extraction of mermaid diagram sources from Markdown and HTML documents,
//! rewriting of HTML pages so that diagrams are inlined as SVG, and the
//! decisions that surround rendering them.

pub mod entities;
pub mod extract;
pub mod pattern;
pub mod text;
pub mod renderer;
pub mod commands;
