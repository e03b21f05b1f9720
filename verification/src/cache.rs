//! Data-cache maintenance operations (AArch64).

use vstd::prelude::*;

verus! {

/// What a whole-cache maintenance pass does to each line.
#[derive(Debug, Clone, Copy, PartialEq, Eq, Structural)]
pub enum DcacheOp {
    CleanAndInvalidate,
    InvalidateOnly,
}

impl DcacheOp {
    /// The operation code that the maintenance routine takes in its
    /// argument register: 0 to clean and invalidate, 1 to invalidate only.
    pub fn code(&self) -> (r: u64)
        ensures
            r == (match *self {
                DcacheOp::CleanAndInvalidate => 0u64,
                DcacheOp::InvalidateOnly => 1u64,
            }),
    {
        match self {
            DcacheOp::CleanAndInvalidate => 0,
            DcacheOp::InvalidateOnly => 1,
        }
    }
}

} // verus!
