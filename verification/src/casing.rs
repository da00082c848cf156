//! Naming-convention rewrites, done by the `heck` crate.
//!
//! The two conversions are pure functions of the input characters; their
//! results are given names here so that contracts can speak of them exactly.

use vstd::prelude::*;

verus! {

pub uninterp spec fn camel_of(s: Seq<char>) -> Seq<char>;

pub uninterp spec fn snake_of(s: Seq<char>) -> Seq<char>;

/// Relies on heck's `CamelCase` for `str`: rewrites to the type-naming
/// convention, and the result depends on the characters alone.
#[verifier::external_body]
pub(crate) fn to_camel_case(s: &str) -> (r: String)
    ensures
        r@ == camel_of(s@),
{
    heck::CamelCase::to_camel_case(s)
}

/// Relies on heck's `SnakeCase` for `str`: rewrites to the value-naming
/// convention, and the result depends on the characters alone.
#[verifier::external_body]
pub(crate) fn to_snake_case(s: &str) -> (r: String)
    ensures
        r@ == snake_of(s@),
{
    heck::SnakeCase::to_snake_case(s)
}

} // verus!
