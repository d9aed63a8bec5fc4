//! A verified parser for a small Markdown-like markup language.
//!
//! Source text is parsed into a tree of blocks (headings, paragraphs,
//! block quotes) whose leaves are inline elements (emphasis, strong
//! emphasis, plain text).  Every node is wrapped in a [`location::Locatable`]
//! carrying the exact source region it was parsed from, with line, column
//! and offset bookkeeping threaded through every parsing step.

pub mod ast;
pub mod errors;
pub mod lexical;
pub mod location;
pub mod parser;
pub mod span;
pub mod syntax;
