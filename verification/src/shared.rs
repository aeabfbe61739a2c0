//! Small types shared across the codestream decoding modules.

use vstd::prelude::*;

verus! {

/// A two-dimensional index: `x` is the column, `y` the row.
#[derive(Debug, Clone, Copy, PartialEq, Eq, Structural)]
pub struct I2 {
    pub x: u32,
    pub y: u32,
}

/// The byte source ended in the middle of an operation.
///
/// Every decoding primitive in this crate that consumes bits or bytes fails
/// with this value when the input is exhausted mid-operation.
#[derive(Debug, Clone, Copy, PartialEq, Eq, Structural)]
pub struct TruncatedInput;

} // verus!
