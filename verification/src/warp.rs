//! Not forwarding the operating system's own cursor moves as if they were
//! the user's.
//!
//! When hop moves the local cursor itself, the displacement is folded into
//! the delta of the next motion event, which would arrive on the peer as a
//! real hand movement. So one motion sample is swallowed after a warp:
//! either the polluted sample is dropped, or one real sample is, and one
//! sample is not perceptible.

use vstd::prelude::*;

verus! {

/// Tracks that a warp has happened and the next motion event is not to be
/// trusted.
#[derive(Debug, Clone, Copy, PartialEq, Eq, Structural)]
pub struct WarpDebt {
    pending: bool,
}

impl View for WarpDebt {
    type V = bool;

    /// Whether a warp is waiting to be absorbed.
    closed spec fn view(&self) -> bool {
        self.pending
    }
}

impl Default for WarpDebt {
    fn default() -> (r: WarpDebt)
        ensures
            r@ == false,
    {
        WarpDebt { pending: false }
    }
}

impl WarpDebt {
    pub fn new() -> (r: WarpDebt)
        ensures
            r@ == false,
    {
        WarpDebt { pending: false }
    }

    /// Records that hop just moved the cursor itself.
    pub fn note_warp(&mut self)
        ensures
            final(self)@ == true,
    {
        self.pending = true;
    }

    /// Whether this motion event should be dropped rather than forwarded.
    /// Clears the debt, so exactly one event is ever swallowed per warp,
    /// and one for several warps before any motion.
    pub fn absorb(&mut self) -> (r: bool)
        ensures
            r == old(self)@,
            final(self)@ == false,
    {
        let pending: bool = self.pending;
        self.pending = false;
        pending
    }

    /// Whether a warp is still waiting to be absorbed.
    pub fn is_pending(&self) -> (r: bool)
        ensures
            r == self@,
    {
        self.pending
    }
}

} // verus!
