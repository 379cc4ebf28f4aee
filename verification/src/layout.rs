//! The shape of an allocation request: a byte size and an alignment.

use vstd::prelude::*;

verus! {

/// `n` is a power of two.
pub open spec fn spec_is_power_of_two(n: int) -> bool
    decreases n,
{
    if n <= 0 {
        false
    } else if n == 1 {
        true
    } else {
        n % 2 == 0 && spec_is_power_of_two(n / 2)
    }
}

/// The size and alignment a caller requests for an allocation.
#[derive(Clone, Copy, PartialEq, Eq, Structural)]
pub struct Layout {
    /// Requested byte length.
    pub size: usize,
    /// Requested alignment.
    pub align: usize,
}

impl Layout {
    /// A valid layout: the alignment is a power of two, and the size stays
    /// within `isize::MAX` even when rounded up to the alignment.
    pub open spec fn wf(self) -> bool {
        spec_is_power_of_two(self.align as int) && self.size + self.align - 1 <= isize::MAX
    }

    /// Builds a layout after checking validity.
    pub fn from_size_align(size: usize, align: usize) -> (r: Option<Layout>)
        ensures
            (match r {
                Some(l) => l == (Layout { size, align }) && l.wf(),
                None => !(Layout { size, align }).wf(),
            }),
    {
        if !is_power_of_two(align) {
            return None;
        }
        let limit: usize = isize::MAX as usize;
        if align - 1 > limit || size > limit - (align - 1) {
            None
        } else {
            Some(Layout { size, align })
        }
    }
}

/// Decides whether `n` is a power of two.
pub fn is_power_of_two(n: usize) -> (r: bool)
    ensures
        r == spec_is_power_of_two(n as int),
{
    if n == 0 {
        return false;
    }
    let mut m: usize = n;
    while m % 2 == 0
        invariant
            m >= 1,
            spec_is_power_of_two(n as int) == spec_is_power_of_two(m as int),
        decreases m,
    {
        m = m / 2;
    }
    m == 1
}

} // verus!
