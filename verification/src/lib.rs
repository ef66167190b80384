//! Parsing and rendering of e-reader clipping exports.
//!
//! A clippings file is a plain-text sequence of annotation blocks separated
//! by lines of `=` characters.  Each block holds a title line (with an
//! optional parenthesized author), an action line naming the annotation kind
//! together with its page or location and a date, and zero or more content
//! lines.  [`parsing`] turns such a file into an ordered sequence of
//! [`parsing::Entry`] records; [`export`] renders a record through a
//! placeholder template.

pub mod export;
pub mod parsing;
pub mod text;
