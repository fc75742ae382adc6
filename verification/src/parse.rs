//! Turning the tokens of a template into a tree.

pub mod arguments;
pub mod calls;
pub mod condition;
pub mod elements;
pub mod equality;
pub mod errors;
pub mod grammar;
pub mod laws;
pub mod library;
pub mod loading;
pub mod meanings;
pub mod messages;
pub mod parser;
pub mod precedence;
pub mod readings;
pub mod structure;
pub mod tags;
pub mod tree;
