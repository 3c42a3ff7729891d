//! Contexts wrapping a handoff for a running subgraph.
use vstd::prelude::*;

use crate::scheduled_alt::handoff::{CanReceive, Handoff, TryCanReceive};

verus! {

/// Read access to a handoff.
pub struct RecvCtx<H: Handoff> {
    handoff: H,
}

impl<H: Handoff> RecvCtx<H> {
    /// Wraps a handoff.
    pub fn new(handoff: H) -> (r: Self)
        ensures
            r.handoff()@ == handoff@,
    {
        RecvCtx { handoff }
    }

    /// The wrapped handoff.
    pub closed spec fn handoff(&self) -> H {
        self.handoff
    }

    /// Unwraps the handoff.
    pub fn into_handoff(self) -> (r: H)
        ensures
            r@ == self.handoff()@,
    {
        self.handoff
    }

    /// Takes everything the handoff holds, leaving it empty.
    pub fn take_inner(&mut self) -> (r: H::Inner)
        ensures
            H::takes(old(self).handoff()@, r, final(self).handoff()@),
            H::view_is_bottom(final(self).handoff()@),
    {
        self.handoff.take_inner()
    }
}

/// Write access to a handoff.
pub struct SendCtx<H: Handoff> {
    handoff: H,
}

impl<H: Handoff> SendCtx<H> {
    /// Wraps a handoff.
    pub fn new(handoff: H) -> (r: Self)
        ensures
            r.handoff()@ == handoff@,
    {
        SendCtx { handoff }
    }

    /// The wrapped handoff.
    pub closed spec fn handoff(&self) -> H {
        self.handoff
    }

    /// Unwraps the handoff.
    pub fn into_handoff(self) -> (r: H)
        ensures
            r@ == self.handoff()@,
    {
        self.handoff
    }

    /// Gives `item` to the handoff, returning what it hands back.
    pub fn give<T>(&mut self, item: T) -> (rest: T)
        where H: CanReceive<T>,
        ensures
            H::receives(old(self).handoff()@, item, final(self).handoff()@, rest),
    {
        self.handoff.give(item)
    }

    /// Offers `item` to the handoff, which may refuse it.
    pub fn try_give<T>(&mut self, item: T) -> (r: Result<T, T>)
        where H: TryCanReceive<T>,
        ensures
            H::tries(old(self).handoff()@, item, final(self).handoff()@, r),
    {
        self.handoff.try_give(item)
    }
}

} // verus!
