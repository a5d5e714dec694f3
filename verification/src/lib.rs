//! Locates LaTeX math spans in Markdown text.
//!
//! The scanner walks the text once, character by character, and reports every
//! span enclosed by `$...$`, `$$...$$`, `\(...\)` or `\[...\]` that lies
//! outside fenced and inline code. Its behaviour is specified by a small state
//! machine over `Seq<char>` and proved against it.

pub mod file_ops;
pub mod formula;
pub mod latex_parser;
pub mod laws;
pub mod llm_proxy;
pub mod scan;
pub mod search;
pub mod shell;
pub mod text;
