use vstd::prelude::*;

verus! {

/// The wire type of a variable-length integer field.
pub const VARINT: u8 = 0;

/// The wire type of a length-delimited field.
pub const LENGTH: u8 = 2;

/// The wire type of a 32-bit field.
pub const FIXED32: u8 = 5;

} // verus!
