//! The set-union lattice and the plain items it holds.
use vstd::prelude::*;

use crate::lattice::{join_all, points_of, Atomize, IsBot, IsTop, Lattice, LatticeEq, LatticeOrd, Merge, Unmerge};

verus! {

/// A plain value that can be compared exactly and copied.
pub trait Item: Sized {
    /// Whether two items are the same.
    fn same_item(&self, other: &Self) -> (r: bool)
        ensures
            r == (*self == *other),
    ;

    /// An identical copy.
    fn copy_item(&self) -> (r: Self)
        ensures
            r == *self,
    ;
}

impl Item for u64 {
    fn same_item(&self, other: &Self) -> (r: bool) {
        *self == *other
    }

    fn copy_item(&self) -> (r: Self) {
        *self
    }
}

impl Item for (u64, u64) {
    fn same_item(&self, other: &Self) -> (r: bool) {
        self.0 == other.0 && self.1 == other.1
    }

    fn copy_item(&self) -> (r: Self) {
        (self.0, self.1)
    }
}

/// Position of `x` in `v`, if any.
pub fn position_of<T: Item>(v: &Vec<T>, x: &T) -> (r: Option<usize>)
    ensures
        match r {
            Some(i) => i < v@.len() && v@[i as int] == *x,
            None => !v@.contains(*x),
        },
{
    let mut i: usize = 0;
    while i < v.len()
        invariant
            i <= v@.len(),
            forall|j: int| 0 <= j < i ==> v@[j] != *x,
        decreases v@.len() - i,
    {
        if v[i].same_item(x) {
            return Some(i);
        }
        i = i + 1;
    }
    None
}

/// Copies a vector of items.
pub fn copy_items<T: Item>(v: &Vec<T>) -> (r: Vec<T>)
    ensures
        r@ == v@,
{
    let mut out: Vec<T> = Vec::new();
    let mut i: usize = 0;
    while i < v.len()
        invariant
            i <= v@.len(),
            out@ == v@.take(i as int),
        decreases v@.len() - i,
    {
        out.push(v[i].copy_item());
        assert(v@.take(i + 1) == v@.take(i as int).push(v@[i as int]));
        i = i + 1;
    }
    assert(v@.take(v@.len() as int) == v@);
    out
}

/// Set-union lattice: sets ordered by inclusion, joined by union.
#[derive(Clone, Debug)]
pub struct SetUnion<T> {
    items: Vec<T>,
}

impl<T> View for SetUnion<T> {
    type V = Set<T>;

    closed spec fn view(&self) -> Set<T> {
        self.items@.to_set()
    }
}

impl<T: Item> SetUnion<T> {
    /// The empty set.
    pub fn empty() -> (r: Self)
        ensures
            r@ == Set::<T>::empty(),
            r.wf(),
    {
        let r = SetUnion { items: Vec::new() };
        assert(r.items@.to_set() =~= Set::<T>::empty());
        r
    }

    /// The set of the items in `items`.
    pub fn new(items: Vec<T>) -> (r: Self)
        ensures
            r@ == items@.to_set(),
            r.wf(),
    {
        SetUnion::new_from(items.as_slice())
    }

    /// The set of the items in `items`.
    pub fn new_from(items: &[T]) -> (r: Self)
        ensures
            r@ == items@.to_set(),
            r.wf(),
    {
        let mut r = SetUnion::empty();
        let mut i: usize = 0;
        while i < items.len()
            invariant
                i <= items@.len(),
                r.wf(),
                r@ == items@.take(i as int).to_set(),
            decreases items@.len() - i,
        {
            r.insert(items[i].copy_item());
            proof {
                assert(items@.take(i + 1) == items@.take(i as int).push(items@[i as int]));
                items@.take(i as int).lemma_push_to_set_commute(items@[i as int]);
            }
            i = i + 1;
        }
        assert(items@.take(items@.len() as int) == items@);
        r
    }

    /// Adds `x`; returns whether it was missing.
    pub fn insert(&mut self, x: T) -> (r: bool)
        requires
            old(self).wf(),
        ensures
            final(self).wf(),
            final(self)@ == old(self)@.insert(x),
            r == !old(self)@.contains(x),
    {
        match position_of(&self.items, &x) {
            Some(_) => {
                assert(self@.insert(x) =~= self@);
                false
            },
            None => {
                let ghost before = self.items@;
                self.items.push(x);
                proof {
                    before.lemma_push_to_set_commute(x);
                    assert(before.push(x).no_duplicates()) by {
                        assert forall|i: int, j: int|
                            0 <= i < before.len() + 1 && 0 <= j < before.len() + 1 && i != j implies before.push(
                                x,
                            )[i] != before.push(x)[j] by {
                            if i < before.len() && j < before.len() {
                            } else if i == before.len() {
                                assert(before.contains(before[j]));
                            } else {
                                assert(before.contains(before[i]));
                            }
                        }
                    }
                }
                true
            },
        }
    }

    /// Whether `x` is in the set.
    pub fn contains(&self, x: &T) -> (r: bool)
        ensures
            r == self@.contains(*x),
    {
        position_of(&self.items, x).is_some()
    }

    /// Number of items.
    pub fn len(&self) -> (r: usize)
        requires
            self.wf(),
        ensures
            r == self@.len(),
    {
        proof {
            self.items@.unique_seq_to_set();
        }
        self.items.len()
    }

    /// The distinct items.
    pub fn as_reveal_ref(&self) -> (r: &Vec<T>)
        ensures
            r@.to_set() == self@,
            self.wf() ==> r@.no_duplicates(),
    {
        &self.items
    }

    /// The distinct items, consuming `self`.
    pub fn into_reveal(self) -> (r: Vec<T>)
        ensures
            r@.to_set() == self@,
            self.wf() ==> r@.no_duplicates(),
    {
        self.items
    }

    /// Whether every item of `self` is in `other`.
    pub fn is_subset(&self, other: &Self) -> (r: bool)
        ensures
            r == self@.subset_of(other@),
    {
        let mut i: usize = 0;
        while i < self.items.len()
            invariant
                i <= self.items@.len(),
                forall|j: int| 0 <= j < i ==> other@.contains(#[trigger] self.items@[j]),
            decreases self.items@.len() - i,
        {
            if !other.contains(&self.items[i]) {
                assert(self@.contains(self.items@[i as int]));
                return false;
            }
            i = i + 1;
        }
        assert forall|x: T| #[trigger] self@.contains(x) implies other@.contains(x) by {
            let j = choose|j: int| 0 <= j < self.items@.len() && self.items@[j] == x;
        }
        true
    }
}

impl<T: Item> Merge for SetUnion<T> {
    open spec fn is_point(v: Set<T>) -> bool {
        v.finite()
    }

    open spec fn join(a: Set<T>, b: Set<T>) -> Set<T> {
        a.union(b)
    }

    closed spec fn wf(&self) -> bool {
        self.items@.no_duplicates()
    }

    open spec fn mergeable(&self) -> bool {
        true
    }

    proof fn lemma_wf_mergeable(x: &Self) {
    }

    proof fn lemma_view_is_point(x: &Self) {
        vstd::seq_lib::seq_to_set_is_finite(x.items@);
    }

    proof fn lemma_join_laws(a: Set<T>, b: Set<T>, c: Set<T>) {
        assert(a.union(a) =~= a);
        assert(a.union(b) =~= b.union(a));
        assert(a.union(b.union(c)) =~= a.union(b).union(c));
    }

    /// Inserts every item of `other`.
    fn merge(&mut self, other: Self) -> (changed: bool) {
        let ghost old_view = self@;
        let mut changed = false;
        let mut i: usize = 0;
        while i < other.items.len()
            invariant
                i <= other.items@.len(),
                self.wf(),
                self@ == old_view.union(other.items@.take(i as int).to_set()),
                changed == (self@ != old_view),
            decreases other.items@.len() - i,
        {
            let x = other.items[i].copy_item();
            let ghost before = self@;
            let inserted = self.insert(x);
            proof {
                let prefix = other.items@.take(i as int);
                assert(other.items@.take(i + 1) == prefix.push(x));
                prefix.lemma_push_to_set_commute(x);
                assert(self@ =~= old_view.union(prefix.push(x).to_set()));
                if inserted {
                    assert(!old_view.contains(x));
                    assert(self@.contains(x));
                }
                if !inserted {
                    assert(self@ =~= before);
                }
            }
            changed = changed || inserted;
            i = i + 1;
        }
        assert(other.items@.take(other.items@.len() as int) == other.items@);
        changed
    }
}

impl<T: Item> LatticeEq for SetUnion<T> {
    fn lattice_eq(&self, other: &Self) -> (r: bool) {
        let r = self.is_subset(other) && other.is_subset(self);
        proof {
            if self@.subset_of(other@) && other@.subset_of(self@) {
                assert(self@ =~= other@);
            }
        }
        r
    }

    fn clone_point(&self) -> (r: Self) {
        SetUnion { items: copy_items(&self.items) }
    }
}

impl<T: Item> LatticeOrd for SetUnion<T> {
    fn lattice_le(&self, other: &Self) -> (r: bool) {
        let r = self.is_subset(other);
        proof {
            if r {
                assert(self@.union(other@) =~= other@);
            } else {
                let x = choose|x: T| self@.contains(x) && !other@.contains(x);
                assert(self@.union(other@).contains(x));
            }
        }
        r
    }
}

impl<T: Item> IsBot for SetUnion<T> {
    open spec fn bot_point() -> Set<T> {
        Set::empty()
    }

    proof fn lemma_bot_least(a: Set<T>) {
        assert(Set::<T>::empty().union(a) =~= a);
    }

    fn is_bot(&self) -> (r: bool) {
        let r = self.items.len() == 0;
        proof {
            if r {
                assert(self@ =~= Set::<T>::empty());
            } else {
                assert(self@.contains(self.items@[0]));
            }
        }
        r
    }
}

impl<T: Item> IsTop for SetUnion<T> {
    /// A finite set of items is never reported as the top.
    open spec fn is_top_point(v: Set<T>) -> bool {
        false
    }

    proof fn lemma_top_greatest(t: Set<T>, a: Set<T>) {
    }

    fn is_top(&self) -> (r: bool) {
        false
    }
}

impl<T: Item> Unmerge for SetUnion<T> {
    open spec fn unjoin(a: Set<T>, b: Set<T>) -> Set<T> {
        a.difference(b)
    }

    /// Keeps the items that `other` does not hold.
    fn unmerge(&mut self, other: &Self) -> (changed: bool) {
        let ghost old_items = self.items@;
        let mut kept: Vec<T> = Vec::new();
        let mut removed = false;
        let mut i: usize = 0;
        while i < self.items.len()
            invariant
                i <= old_items.len(),
                self.items@ == old_items,
                old_items.no_duplicates(),
                kept@.no_duplicates(),
                kept@.to_set() == old_items.take(i as int).to_set().difference(other@),
                forall|j: int| 0 <= j < kept@.len() ==> old_items.take(i as int).contains(#[trigger] kept@[j]),
                removed == exists|j: int| 0 <= j < i && other@.contains(#[trigger] old_items[j]),
            decreases old_items.len() - i,
        {
            let x = self.items[i].copy_item();
            let ghost prefix = old_items.take(i as int);
            proof {
                assert(old_items.take(i + 1) == prefix.push(x));
                prefix.lemma_push_to_set_commute(x);
                assert(!prefix.contains(x)) by {
                    if prefix.contains(x) {
                        let j = choose|j: int| 0 <= j < prefix.len() && prefix[j] == x;
                        assert(old_items[j] == old_items[i as int]);
                    }
                }
            }
            if other.contains(&x) {
                removed = true;
                proof {
                    assert(kept@.to_set() =~= prefix.push(x).to_set().difference(other@));
                }
            } else {
                let ghost before = kept@;
                kept.push(x);
                proof {
                    before.lemma_push_to_set_commute(x);
                    assert(kept@.to_set() =~= prefix.push(x).to_set().difference(other@));
                    assert(kept@.no_duplicates()) by {
                        assert forall|a: int, b: int|
                            0 <= a < kept@.len() && 0 <= b < kept@.len() && a != b implies kept@[a] != kept@[b] by {
                            if a < before.len() && b < before.len() {
                            } else if a == before.len() {
                                assert(prefix.contains(before[b]));
                            } else {
                                assert(prefix.contains(before[a]));
                            }
                        }
                    }
                }
            }
            proof {
                assert forall|j: int| 0 <= j < kept@.len() implies old_items.take(i + 1).contains(#[trigger] kept@[j]) by {
                    if j < kept@.len() - 1 || !(kept@[j] == x) {
                        if prefix.contains(kept@[j]) {
                            let k = choose|k: int| 0 <= k < prefix.len() && prefix[k] == kept@[j];
                            assert(old_items.take(i + 1)[k] == kept@[j]);
                        } else {
                            assert(old_items.take(i + 1)[i as int] == kept@[j]);
                        }
                    } else {
                        assert(old_items.take(i + 1)[i as int] == x);
                    }
                }
                if other@.contains(x) {
                    assert(other@.contains(old_items[i as int]));
                }
            }
            i = i + 1;
        }
        proof {
            assert(old_items.take(old_items.len() as int) == old_items);
            if removed {
                let j = choose|j: int| 0 <= j < old_items.len() && other@.contains(#[trigger] old_items[j]);
                assert(old_items.to_set().contains(old_items[j]));
                assert(!kept@.to_set().contains(old_items[j]));
            } else {
                assert(kept@.to_set() =~= old_items.to_set()) by {
                    assert forall|x: T| old_items.to_set().contains(x) implies !other@.contains(x) by {
                        let j = choose|j: int| 0 <= j < old_items.len() && old_items[j] == x;
                    }
                }
            }
        }
        self.items = kept;
        removed
    }
}

impl<T: Item> Atomize for SetUnion<T> {
    /// One singleton set per item.
    fn atomize(self) -> (atoms: Vec<Self>) {
        let mut atoms: Vec<Self> = Vec::new();
        let mut i: usize = 0;
        while i < self.items.len()
            invariant
                i <= self.items@.len(),
                self.items@.no_duplicates(),
                atoms@.len() == i,
                forall|j: int| 0 <= j < i ==> (#[trigger] atoms@[j]).wf(),
                forall|j: int| 0 <= j < i ==> (#[trigger] atoms@[j])@ == set![self.items@[j]],
                join_all::<Self>(Set::empty(), points_of(atoms@)) == self.items@.take(i as int).to_set(),
            decreases self.items@.len() - i,
        {
            let x = self.items[i].copy_item();
            let mut one: Vec<T> = Vec::new();
            one.push(x);
            let atom = SetUnion { items: one };
            proof {
                assert(atom.items@ == seq![x]);
                assert(atom@ =~= set![x]) by {
                    assert(seq![x].to_set() =~= set![x]) by {
                        assert forall|y: T| seq![x].to_set().contains(y) implies y == x by {
                            assert(seq![x].contains(y));
                        }
                        assert(seq![x][0] == x);
                    }
                }
            }
            let ghost before = atoms@;
            atoms.push(atom);
            proof {
                let prefix = self.items@.take(i as int);
                assert(self.items@.take(i + 1) == prefix.push(x));
                prefix.lemma_push_to_set_commute(x);
                assert(points_of(atoms@).drop_last() == points_of(before));
                assert(points_of(atoms@).last() == set![x]);
                assert(prefix.to_set().union(set![x]) =~= prefix.to_set().insert(x));
            }
            i = i + 1;
        }
        proof {
            assert(self.items@.take(self.items@.len() as int) == self.items@);
            assert forall|j: int| 0 <= j < atoms@.len() implies (#[trigger] atoms@[j])@ != Set::<T>::empty() by {
                assert(atoms@[j]@.contains(self.items@[j]));
            }
            if atoms@.len() == 0 {
                assert(self@ =~= Set::<T>::empty());
            } else {
                assert(self@.contains(self.items@[0]));
            }
        }
        atoms
    }
}

/// Removing `y` from a set that holds it and merging `y` back gives the set again, and
/// the removed part shares nothing with `y`.
pub proof fn lemma_unmerge_then_merge<T: Item>(x: Set<T>, y: Set<T>)
    requires
        y.subset_of(x),
    ensures
        SetUnion::<T>::join(SetUnion::<T>::unjoin(x, y), y) == x,
        SetUnion::<T>::unjoin(x, y).disjoint(y),
{
    assert(x.difference(y).union(y) =~= x);
}

impl<T: Item> Lattice for SetUnion<T> {

}

impl<T: Item> Default for SetUnion<T> {
    fn default() -> (r: Self)
        ensures
            r@ == Set::<T>::empty(),
            r.wf(),
    {
        SetUnion::empty()
    }
}

} // verus!
