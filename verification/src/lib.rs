//! Scanner for embedded C++ fragments in Rust source text.
//!
//! The crate lexes Rust source with a lightweight cursor: it skips string,
//! character, byte and raw-string literals, line comments and nested block
//! comments, tracks line and column positions, finds balanced-delimiter
//! spans, locates `cpp!` and `cpp_class!` forms, and rewrites `rust!`
//! escape-hatch invocations inside a fragment body into generated call
//! expressions while preserving line counts.

pub mod cursor;
pub mod data;
pub mod expand;
pub mod ident;
pub mod lit;
pub mod locate;
pub mod meta;
pub mod rustinv;
pub mod search;
pub mod srcmap;
pub mod strbuild;
pub mod ws;

use vstd::prelude::*;

verus! {

/// A failure of the old in-compiler macro parser.
#[derive(Debug)]
pub enum MError {
    Other(String),
    Missing,
}

/// What a wrapped C++ class tells the host about its layout: the unit its
/// storage is made of, how many units it takes, and its C++ type name.
pub trait CppTrait {
    type BaseType;

    fn array_size(&self) -> usize;

    fn cpp_type(&self) -> String;
}

/// A callback interface whose implementations are supplied by users of the
/// library; a fragment body can call back through it.
pub trait MyTrait {
    fn compute_value(&self, x: i32) -> i32;
}

/// Adds two to its argument.
pub fn add_two(x: i32) -> (r: i32)
    requires
        x + 2 <= i32::MAX,
    ensures
        r == x + 2,
{
    x + 2
}

} // verus!
