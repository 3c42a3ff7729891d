//! Handoffs that own their buffer.
use std::collections::VecDeque;
use vstd::prelude::*;

verus! {

/// A handoff value: a buffer between two subgraphs.
pub trait Handoff: View + Sized {
    /// What a receiver takes out.
    type Inner;

    /// Whether `v` holds nothing to deliver.
    spec fn view_is_bottom(v: Self::V) -> bool;

    /// Taking `inner` out of a handoff viewed as `before` leaves `after`.
    spec fn takes(before: Self::V, inner: Self::Inner, after: Self::V) -> bool;

    /// An empty handoff.
    fn new_empty() -> (r: Self)
        ensures
            Self::view_is_bottom(r@),
    ;

    /// Whether the handoff holds nothing to deliver.
    fn is_bottom(&self) -> (r: bool)
        ensures
            r == Self::view_is_bottom(self@),
    ;

    /// Takes everything out, leaving the handoff empty.
    fn take_inner(&mut self) -> (r: Self::Inner)
        ensures
            Self::takes(old(self)@, r, final(self)@),
            Self::view_is_bottom(final(self)@),
    ;
}

/// A handoff that always accepts items of type `T`.
pub trait CanReceive<T>: Handoff {
    /// Giving `item` to `before` leaves `after` and hands back `rest`.
    spec fn receives(before: Self::V, item: T, after: Self::V, rest: T) -> bool;

    /// Gives `item` to the handoff.
    fn give(&mut self, item: T) -> (rest: T)
        ensures
            Self::receives(old(self)@, item, final(self)@, rest),
    ;
}

/// A handoff that may refuse items of type `T`.
pub trait TryCanReceive<T>: Handoff {
    /// Offering `item` to `before` leaves `after` with result `r`.
    spec fn tries(before: Self::V, item: T, after: Self::V, r: Result<T, T>) -> bool;

    /// Offers `item`; `Err` hands it back when refused.
    fn try_give(&mut self, item: T) -> (r: Result<T, T>)
        ensures
            Self::tries(old(self)@, item, final(self)@, r),
    ;
}

/// A FIFO handoff owning a `VecDeque`.
pub struct VecHandoff<T> {
    deque: VecDeque<T>,
}

impl<T> View for VecHandoff<T> {
    type V = Seq<T>;

    closed spec fn view(&self) -> Seq<T> {
        self.deque@
    }
}

impl<T> Handoff for VecHandoff<T> {
    type Inner = VecDeque<T>;

    open spec fn view_is_bottom(v: Seq<T>) -> bool {
        v.len() == 0
    }

    open spec fn takes(before: Seq<T>, inner: VecDeque<T>, after: Seq<T>) -> bool {
        inner@ == before && after.len() == 0
    }

    fn new_empty() -> (r: Self) {
        VecHandoff { deque: VecDeque::new() }
    }

    fn is_bottom(&self) -> (r: bool) {
        self.deque.len() == 0
    }

    fn take_inner(&mut self) -> (r: VecDeque<T>) {
        let mut taken = VecDeque::new();
        std::mem::swap(&mut taken, &mut self.deque);
        taken
    }
}

impl<T> CanReceive<Option<T>> for VecHandoff<T> {
    /// `Some(x)` appends `x`; nothing is handed back.
    open spec fn receives(before: Seq<T>, item: Option<T>, after: Seq<T>, rest: Option<T>) -> bool {
        &&& rest is None
        &&& after == match item {
            Some(x) => before.push(x),
            None => before,
        }
    }

    fn give(&mut self, item: Option<T>) -> (rest: Option<T>) {
        if let Some(item) = item {
            self.deque.push_back(item);
        }
        None
    }
}

impl<T> CanReceive<VecDeque<T>> for VecHandoff<T> {
    /// Appends every item, handing back the emptied deque.
    open spec fn receives(before: Seq<T>, item: VecDeque<T>, after: Seq<T>, rest: VecDeque<T>) -> bool {
        &&& after == before + item@
        &&& rest@.len() == 0
    }

    fn give(&mut self, item: VecDeque<T>) -> (rest: VecDeque<T>) {
        let mut vec = item;
        self.deque.append(&mut vec);
        vec
    }
}

impl<T> Default for VecHandoff<T> {
    fn default() -> (r: Self)
        ensures
            r@.len() == 0,
    {
        VecHandoff { deque: VecDeque::new() }
    }
}

} // verus!
