//! Structural decode errors.
//!
//! Every failure is local to a single decode call: there is no partial
//! success. The kinds distinguish "the input ended early" from "a byte holds
//! a value it must not hold," so a caller can tell a corrupt tag from a
//! short read.

use vstd::prelude::*;

verus! {

/// A structural error found while decoding a tag payload.
#[derive(Debug, Clone, Copy, PartialEq, Eq, Structural)]
pub enum Error {
    /// Fewer bytes remain than the next field requires.
    Truncated,
    /// A byte holds a value outside its defined set: a control byte with an
    /// undefined discriminant, or a serato32 byte with its top bit set.
    InvalidDiscriminant,
    /// A fixed reserved byte sequence does not match its required literal
    /// value.
    MismatchedFiller,
    /// Bytes remain after the grammar has consumed the whole payload.
    TrailingData,
}

} // verus!
