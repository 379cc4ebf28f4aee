//! The reentrancy guard: per-engine state that records whether a file-backed
//! operation is already underway, so that the heap allocations performed by
//! the bookkeeping itself (paths, registry storage, file handles) are routed
//! to the ordinary system allocator instead of recursing into the
//! file-backed path.

use vstd::prelude::*;

verus! {

/// Counters and flags consulted before every core operation.
///
/// `allocating` and `deallocating` count the operations currently in
/// progress; `switched_off` is the opt-out flag a caller can toggle to
/// disable file-backed allocation entirely.
pub struct ReentrancyGuard {
    /// Number of file-backed allocations or resizes currently in progress.
    pub allocating: usize,
    /// Number of file-backed deallocations currently in progress.
    pub deallocating: usize,
    /// When true, every request is delegated to the fallback provider.
    pub switched_off: bool,
}

impl ReentrancyGuard {
    /// A request must take the fallback path when the caller has opted out
    /// or when any allocation or deallocation is already in progress.
    pub open spec fn spec_should_use_fallback(self) -> bool {
        self.switched_off || self.deallocating != 0 || self.allocating != 0
    }

    /// No operation is in progress.
    pub open spec fn idle(self) -> bool {
        self.allocating == 0 && self.deallocating == 0
    }

    /// A fresh guard: nothing in progress, file-backed allocation enabled.
    pub fn new() -> (g: ReentrancyGuard)
        ensures
            g == (ReentrancyGuard { allocating: 0, deallocating: 0, switched_off: false }),
    {
        ReentrancyGuard { allocating: 0, deallocating: 0, switched_off: false }
    }

    /// Consult the guard; `true` means the caller must delegate to the
    /// fallback provider and touch no other engine state.
    pub fn should_use_fallback(&self) -> (r: bool)
        ensures
            r == self.spec_should_use_fallback(),
    {
        self.switched_off || self.deallocating != 0 || self.allocating != 0
    }

    /// Enable (`true`) or disable (`false`) file-backed allocation.
    pub fn set_enabled(&mut self, value: bool)
        ensures
            *final(self) == (ReentrancyGuard { switched_off: !value, ..*old(self) }),
    {
        self.switched_off = !value;
    }

    /// Record that a file-backed allocation or resize has begun.
    pub fn enter_allocating(&mut self)
        requires
            old(self).allocating < usize::MAX,
        ensures
            *final(self) == (ReentrancyGuard {
                allocating: (old(self).allocating + 1) as usize,
                ..*old(self)
            }),
    {
        self.allocating = self.allocating + 1;
    }

    /// Record that a file-backed allocation or resize has finished.
    pub fn leave_allocating(&mut self)
        requires
            old(self).allocating > 0,
        ensures
            *final(self) == (ReentrancyGuard {
                allocating: (old(self).allocating - 1) as usize,
                ..*old(self)
            }),
    {
        self.allocating = self.allocating - 1;
    }

    /// Record that a file-backed deallocation has begun.
    pub fn enter_deallocating(&mut self)
        requires
            old(self).deallocating < usize::MAX,
        ensures
            *final(self) == (ReentrancyGuard {
                deallocating: (old(self).deallocating + 1) as usize,
                ..*old(self)
            }),
    {
        self.deallocating = self.deallocating + 1;
    }

    /// Record that a file-backed deallocation has finished.
    pub fn leave_deallocating(&mut self)
        requires
            old(self).deallocating > 0,
        ensures
            *final(self) == (ReentrancyGuard {
                deallocating: (old(self).deallocating - 1) as usize,
                ..*old(self)
            }),
    {
        self.deallocating = self.deallocating - 1;
    }
}

/// Law: while any file-backed operation is in progress, every further
/// request is routed to the fallback provider, whatever the nesting depth:
/// the counters only reach zero again once every nested operation has left.
pub proof fn lemma_reentrant_requests_fall_back(g: ReentrancyGuard)
    requires
        g.allocating > 0 || g.deallocating > 0,
    ensures
        g.spec_should_use_fallback(),
{
}

} // verus!
