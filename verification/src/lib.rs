//! Parsing and rendering of Django templates.
use vstd::prelude::*;

pub mod dict;
pub mod filters;
pub mod float;
pub mod integer;
pub mod lexer;
pub mod listing;
pub mod loaders;
pub mod lookup;
pub mod parse;
pub mod render;
pub mod searching;
pub mod text;
pub mod types;
pub mod words;

verus! {

/// The length of the delimiter that opens a tag, a variable or a comment.
pub const START_TAG_LEN: usize = 2;

/// The length of the delimiter that closes a tag, a variable or a comment.
pub const END_TAG_LEN: usize = 2;

} // verus!
