//! A small markup parser: a grammar over characters that yields a tree of
//! matched spans, and a builder that turns that tree into elements and text.
//!
//! `parse_html` parses a document into its top-level nodes; `parse` matches
//! an input against one production, named by its name, and returns the raw
//! tree. Both take the whole input or fail with a `ParseError`; positions
//! count characters. A closing tag closes the element that is open,
//! whatever name it gives: names are not compared.

pub mod ast;
pub mod builder;
pub mod error;
pub mod grammar;
pub mod invariants;
pub mod laws;
pub mod layout;
pub mod matcher;
pub mod parser;
pub mod span;
pub mod text;

pub use ast::{Element, Node};
pub use error::ParseError;
pub use parser::{parse, parse_html};
pub use span::{Rule, Span};
