//! Parsing of ProGuard-style symbol mapping documents into classes, fields
//! and methods, each pairing a readable name with its obfuscated one.
//!
//! - `text`: character-level helpers (the ` -> ` separator, indentation).
//! - `records`: the class, field and method types and their line parsers.
//! - `document`: a whole document grouped into class blocks.
//! - `search`: substring lookups over the parsed index.
//! - `laws`: properties proved of every document.

pub mod document;
pub mod laws;
pub mod records;
pub mod search;
pub mod text;
