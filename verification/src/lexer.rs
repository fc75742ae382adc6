//! Lexical structure of templates.
pub mod checks;
pub mod tag;
pub mod tokens;
