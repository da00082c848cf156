//! Translates Go struct and type-alias declarations into equivalent Rust
//! declarations with serde attributes, generics, and trait bounds.
//!
//! The pipeline is one pass: the source text is parsed into a syntax tree,
//! top-level declarations are dispatched, each field's Go type is translated
//! into a rendered Rust type together with the imports, annotations and
//! generic parameters it needs, and the results are collected into an
//! in-memory module model that a rendering layer can print.

use vstd::prelude::*;

pub mod casing;
pub mod convert;
pub mod decl;
pub mod dispatch;
pub mod emit;
pub mod error;
pub mod go_type;
pub mod parser;
pub mod rust_type;
pub mod text;

pub use dispatch::parse_go_string;
pub use parser::AwsGoEventsParser;

verus! {

/// A piece of Go source text, kept unchanged for traceability.
#[derive(Debug, Clone, PartialEq)]
pub struct GoCode(pub String);

impl GoCode {
    /// The underlying source text.
    pub fn text(&self) -> (r: &String)
        ensures
            r@ == self.0@,
    {
        &self.0
    }
}

} // verus!
