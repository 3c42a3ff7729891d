//! Contexts through which a running subgraph writes to and reads from its handoffs.
use vstd::prelude::*;

use crate::scheduled::handoff::{CanReceive, Handoff, TryCanReceive};

verus! {

/// Write access to the state of one handoff, held while a subgraph runs.
pub struct SendCtx<H: Handoff> {
    state: H::State,
}

impl<H: Handoff> SendCtx<H> {
    /// A context holding the handoff state `state`.
    pub fn new(state: H::State) -> (r: Self)
        ensures
            r.state() == state,
    {
        SendCtx { state }
    }

    /// The handoff state.
    pub closed spec fn state(&self) -> H::State {
        self.state
    }

    /// Gives the handoff state back, consuming the context.
    pub fn into_state(self) -> (r: H::State)
        ensures
            r == self.state(),
    {
        self.state
    }

    /// Gives `item` to the handoff, returning what the handoff hands back.
    pub fn give<T>(&mut self, item: T) -> (rest: T)
        where H: CanReceive<T>,
        ensures
            H::receives(old(self).state(), item, final(self).state(), rest),
    {
        H::give(&mut self.state, item)
    }

    /// Offers `item` to the handoff, which may refuse it.
    pub fn try_give<T>(&mut self, item: T) -> (r: Result<T, T>)
        where H: TryCanReceive<T>,
        ensures
            H::tries(old(self).state(), item, final(self).state(), r),
    {
        H::try_give(&mut self.state, item)
    }
}

/// Read access to the state of one handoff, held while a subgraph runs.
pub struct RecvCtx<H: Handoff> {
    state: H::State,
}

impl<H: Handoff> RecvCtx<H> {
    /// A context holding the handoff state `state`.
    pub fn new(state: H::State) -> (r: Self)
        ensures
            r.state() == state,
    {
        RecvCtx { state }
    }

    /// The handoff state.
    pub closed spec fn state(&self) -> H::State {
        self.state
    }

    /// Gives the handoff state back, consuming the context.
    pub fn into_state(self) -> (r: H::State)
        ensures
            r == self.state(),
    {
        self.state
    }

    /// Takes everything the handoff holds, leaving it empty.
    pub fn take_inner(&mut self) -> (r: H::Inner)
        ensures
            H::takes(old(self).state(), r, final(self).state()),
            H::state_is_bottom(final(self).state()),
    {
        H::take_inner(&mut self.state)
    }
}

} // verus!
