//! The failure taxonomy of the translator.
//!
//! Every failure is fatal: there is no partial output and no recovery. An
//! error names the offending construct so that a diagnostic can be printed.

use vstd::prelude::*;
use crate::go_type::GoType;

verus! {

/// Why a translation run was aborted.
#[derive(Debug, PartialEq)]
pub enum Error {
    /// The source text did not match the grammar; carries the character
    /// offset at which no rule could make progress.
    Syntax(usize),
    /// A primitive type name outside the recognized set; carries the name.
    UnsupportedGoPrimitive(String),
    /// A package-qualified identifier outside the two recognized ones;
    /// carries the identifier.
    UnsupportedPackageIdent(String),
    /// A map key whose type is not a primitive kind; carries the key type.
    NonPrimitiveMapKey(Box<GoType>),
    /// A top-level declaration of a kind that is neither translated nor on
    /// the allow-list of skipped kinds; carries the offending text.
    UnexpectedTopLevel(String),
    /// An internal expectation failed: more generic parameters were minted
    /// in one struct than the counter can hold.
    TooManyGenerics,
    /// An internal expectation failed; carries a description.
    Internal(String),
}

} // verus!
