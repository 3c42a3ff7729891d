//! Handoffs: buffers that carry items from one subgraph to the next.
use std::collections::VecDeque;
use vstd::prelude::*;

verus! {

/// A kind of handoff, with the state it keeps between subgraphs.
pub trait Handoff {
    /// The buffered state.
    type State;
    /// What a receiver takes out of the state.
    type Inner;

    /// Whether the state holds nothing to deliver.
    spec fn state_is_bottom(state: Self::State) -> bool;

    /// Taking `inner` out of `before` leaves `after`.
    spec fn takes(before: Self::State, inner: Self::Inner, after: Self::State) -> bool;

    /// A fresh, empty state.
    fn default_state() -> (r: Self::State)
        ensures
            Self::state_is_bottom(r),
    ;

    /// Whether the state holds nothing to deliver.
    fn is_bottom(state: &Self::State) -> (r: bool)
        ensures
            r == Self::state_is_bottom(*state),
    ;

    /// Takes everything out of the state, leaving it empty.
    fn take_inner(state: &mut Self::State) -> (r: Self::Inner)
        ensures
            Self::takes(*old(state), r, *final(state)),
            Self::state_is_bottom(*final(state)),
    ;
}

/// A handoff that always accepts items of type `T`, handing back what it did not keep.
pub trait CanReceive<T>: Handoff {
    /// Giving `item` to `before` leaves `after` and hands back `rest`.
    spec fn receives(before: Self::State, item: T, after: Self::State, rest: T) -> bool;

    /// Gives `item` to the handoff.
    fn give(state: &mut Self::State, item: T) -> (rest: T)
        ensures
            Self::receives(*old(state), item, *final(state), rest),
    ;
}

/// A handoff that may refuse items of type `T`.
pub trait TryCanReceive<T>: Handoff {
    /// Offering `item` to `before` leaves `after` with result `r`.
    spec fn tries(before: Self::State, item: T, after: Self::State, r: Result<T, T>) -> bool;

    /// Offers `item` to the handoff; `Err` hands the item back when it is refused.
    fn try_give(state: &mut Self::State, item: T) -> (r: Result<T, T>)
        ensures
            Self::tries(*old(state), item, *final(state), r),
    ;
}

/// A FIFO handoff backed by a `VecDeque`.
pub struct VecHandoff<T> {
    _private: Option<T>,
}

impl<T> Handoff for VecHandoff<T> {
    type State = VecDeque<T>;
    type Inner = VecDeque<T>;

    open spec fn state_is_bottom(state: VecDeque<T>) -> bool {
        state@.len() == 0
    }

    open spec fn takes(before: VecDeque<T>, inner: VecDeque<T>, after: VecDeque<T>) -> bool {
        inner@ == before@ && after@.len() == 0
    }

    fn default_state() -> (r: VecDeque<T>) {
        VecDeque::new()
    }

    fn is_bottom(state: &VecDeque<T>) -> (r: bool) {
        state.len() == 0
    }

    fn take_inner(state: &mut VecDeque<T>) -> (r: VecDeque<T>) {
        let mut taken = VecDeque::new();
        std::mem::swap(&mut taken, state);
        taken
    }
}

impl<T> CanReceive<Option<T>> for VecHandoff<T> {
    /// `Some(x)` appends `x`; nothing is handed back.
    open spec fn receives(before: VecDeque<T>, item: Option<T>, after: VecDeque<T>, rest: Option<T>) -> bool {
        &&& rest is None
        &&& after@ == match item {
            Some(x) => before@.push(x),
            None => before@,
        }
    }

    fn give(state: &mut VecDeque<T>, item: Option<T>) -> (rest: Option<T>) {
        if let Some(item) = item {
            state.push_back(item);
        }
        None
    }
}

impl<T> CanReceive<VecDeque<T>> for VecHandoff<T> {
    /// Appends every item, handing back the emptied deque.
    open spec fn receives(before: VecDeque<T>, item: VecDeque<T>, after: VecDeque<T>, rest: VecDeque<T>) -> bool {
        &&& after@ == before@ + item@
        &&& rest@.len() == 0
    }

    fn give(state: &mut VecDeque<T>, item: VecDeque<T>) -> (rest: VecDeque<T>) {
        let mut vec = item;
        state.append(&mut vec);
        vec
    }
}

/// Giving `Some(x)` to a `VecHandoff` keeps everything it held, in order, and puts `x` after
/// it; giving `None` changes nothing; nothing is handed back.
pub proof fn lemma_vec_handoff_appends<T>(
    before: VecDeque<T>,
    item: Option<T>,
    after: VecDeque<T>,
    rest: Option<T>,
)
    requires
        <VecHandoff<T> as CanReceive<Option<T>>>::receives(before, item, after, rest),
    ensures
        rest is None,
        item is None ==> after@ == before@,
        item is Some ==> {
            &&& after@.len() == before@.len() + 1
            &&& after@[before@.len() as int] == item->0
            &&& forall|i: int| 0 <= i < before@.len() ==> after@[i] == before@[i]
        },
{
}

/// A `VecHandoff` is first in, first out: after giving `x` and then `y`, taking everything
/// out returns what was held before, then `x`, then `y`, and leaves the handoff empty.
pub proof fn lemma_vec_handoff_fifo<T>(
    s0: VecDeque<T>,
    x: T,
    s1: VecDeque<T>,
    r1: Option<T>,
    y: T,
    s2: VecDeque<T>,
    r2: Option<T>,
    taken: VecDeque<T>,
    s3: VecDeque<T>,
)
    requires
        <VecHandoff<T> as CanReceive<Option<T>>>::receives(s0, Some(x), s1, r1),
        <VecHandoff<T> as CanReceive<Option<T>>>::receives(s1, Some(y), s2, r2),
        <VecHandoff<T> as Handoff>::takes(s2, taken, s3),
    ensures
        taken@.len() == s0@.len() + 2,
        forall|i: int| 0 <= i < s0@.len() ==> taken@[i] == s0@[i],
        taken@[s0@.len() as int] == x,
        taken@[s0@.len() as int + 1] == y,
        s3@.len() == 0,
{
}

/// Giving a whole deque to a `VecHandoff` keeps everything it held, in order, puts the
/// given items after it in their order, and hands back an empty deque.
pub proof fn lemma_vec_handoff_appends_all<T>(
    before: VecDeque<T>,
    items: VecDeque<T>,
    after: VecDeque<T>,
    rest: VecDeque<T>,
)
    requires
        <VecHandoff<T> as CanReceive<VecDeque<T>>>::receives(before, items, after, rest),
    ensures
        rest@.len() == 0,
        after@.len() == before@.len() + items@.len(),
        forall|i: int| 0 <= i < before@.len() ==> after@[i] == before@[i],
        forall|i: int| 0 <= i < items@.len() ==> after@[before@.len() + i] == items@[i],
{
}

} // verus!
