//! Query-language front end for a document-oriented content store.
//!
//! The core of the crate is a GROQ-style query engine: a lexer that turns
//! query text into spanned tokens, a recursive-descent parser that builds an
//! expression tree, and a tree-walking evaluator that tests a single document
//! against a boolean predicate with caller-supplied parameter bindings.
//! Around it sit small document utilities: document-id classification,
//! field validation, and mutation result records.

pub mod text;

pub mod id;

pub mod value;

pub mod ast;

pub mod eval;

pub mod functions;

pub mod lexer;

pub mod parser;

pub mod validate;

pub mod config;

pub mod mutation;
