//! A verified parser and lexer for directive header lines.
//!
//! A document's first non-blank line may carry a directive such as
//! `@option key=value count=10`.  This crate parses that line into a
//! structured directive (or a precise error) and, independently,
//! re-tokenizes it into labeled spans with byte offsets into the full
//! buffer, for syntax highlighting.

pub mod grammar;
pub mod import;
pub mod laws;
pub mod lexer;
pub mod lines;
pub mod parser;
pub mod render;
pub mod slicing;
