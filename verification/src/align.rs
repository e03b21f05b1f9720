//! Alignment helpers of the `num_align` crate.

use vstd::prelude::*;

use num_align::{NumAlign, NumAssertAlign};

verus! {

/// `x` rounded up to a multiple of `align`: `x` itself when it is a
/// multiple, else `x + align - x % align`.
pub open spec fn align_up_spec(x: usize, align: usize) -> int {
    if x % align == 0 {
        x as int
    } else {
        x + align - x % align
    }
}

/// `NumAlign::align_up` on `usize`: returns `x` when `x % align == 0`, else
/// `x + align - x % align`. It panics when `align` is zero and, with overflow
/// checks, when `x + align` overflows; both are ruled out here.
#[verifier::external_body]
pub(crate) fn align_up(x: usize, align: usize) -> (r: usize)
    requires
        align > 0,
        x % align != 0 ==> x + align <= usize::MAX,
    ensures
        r == align_up_spec(x, align),
{
    x.align_up(align)
}

/// `NumAlign::align_down` on `usize`: returns `x - x % align`. It panics when
/// `align` is zero, which is ruled out here.
#[verifier::external_body]
pub(crate) fn align_down(x: usize, align: usize) -> (r: usize)
    requires
        align > 0,
    ensures
        r == x - x % align,
{
    x.align_down(align)
}

/// `NumAssertAlign::is_aligned_to` on `usize`: whether `x % align == 0`. It
/// panics when `align` is zero, which is ruled out here.
#[verifier::external_body]
pub(crate) fn is_aligned_to(x: usize, align: usize) -> (r: bool)
    requires
        align > 0,
    ensures
        r == (x % align == 0),
{
    x.is_aligned_to(align)
}

} // verus!
