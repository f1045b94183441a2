//! A front end and lookup compiler for the OpenType feature-file language.
//!
//! The crate scans feature-file source into tokens, assembles them into a
//! concrete syntax tree, and groups resolved rules into the lookups, features
//! and scripts that make up the `GSUB` and `GPOS` layout tables.

pub mod compile;
pub mod kind;
pub mod lexer;
pub mod parse;
pub mod text;
pub mod token_tree;
pub mod types;
