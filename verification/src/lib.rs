//! Incremental search over a sparsely-indexed Unicode codepoint table,
//! with the input-editing and selection state machine that drives it.

pub mod app;
pub mod data;
pub mod output;
pub mod editor;
pub mod query;
pub mod selection;
pub mod text;

use vstd::prelude::*;

verus! {

/// A codepoint is a valid Unicode scalar value exactly when it is below the
/// surrogate range or between the end of the surrogate range and the maximum
/// codepoint.
pub open spec fn is_scalar_value(u: u32) -> bool {
    u < 0xD800 || (0xE000 <= u && u <= 0x10FFFF)
}

} // verus!
