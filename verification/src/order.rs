//! Partial comparison of lattice values.
use core::cmp::Ordering;
use vstd::prelude::*;

use crate::lattice::{lattice_le, LatticeEq, LatticeOrd, Merge};

verus! {

/// How two lattice points compare in the lattice order.
pub open spec fn order_of<T: Merge>(a: T::V, b: T::V) -> Option<Ordering> {
    if lattice_le::<T>(a, b) {
        if lattice_le::<T>(b, a) {
            Some(Ordering::Equal)
        } else {
            Some(Ordering::Less)
        }
    } else if lattice_le::<T>(b, a) {
        Some(Ordering::Greater)
    } else {
        None
    }
}

/// Combines the two directions of the order into a partial comparison.
fn order_from(a_le_b: bool, b_le_a: bool) -> (r: Option<Ordering>)
    ensures
        r == (if a_le_b {
            if b_le_a {
                Some(Ordering::Equal)
            } else {
                Some(Ordering::Less)
            }
        } else if b_le_a {
            Some(Ordering::Greater)
        } else {
            None
        }),
{
    if a_le_b {
        if b_le_a {
            Some(Ordering::Equal)
        } else {
            Some(Ordering::Less)
        }
    } else if b_le_a {
        Some(Ordering::Greater)
    } else {
        None
    }
}

/// Compares two values with the lattice's own order test.
pub fn partial_cmp<T: LatticeOrd>(a: &T, b: &T) -> (r: Option<Ordering>)
    requires
        a.wf(),
        b.wf(),
    ensures
        r == order_of::<T>(a@, b@),
{
    let a_le_b = a.lattice_le(b);
    let b_le_a = b.lattice_le(a);
    order_from(a_le_b, b_le_a)
}

/// Compares two values by merging each into a copy of the other: `a <= b` exactly when
/// merging `a` into `b` changes nothing.
pub fn naive_cmp<T: LatticeEq>(a: &T, b: &T) -> (r: Option<Ordering>)
    requires
        a.wf(),
        b.wf(),
    ensures
        r == order_of::<T>(a@, b@),
{
    proof {
        T::lemma_wf_mergeable(a);
        T::lemma_wf_mergeable(b);
    }
    let mut b_copy = b.clone_point();
    let a_le_b = !b_copy.merge(a.clone_point());
    let mut a_copy = a.clone_point();
    let b_le_a = !a_copy.merge(b.clone_point());
    proof {
        T::lemma_view_is_point(a);
        T::lemma_view_is_point(b);
        T::lemma_join_laws(a@, b@, a@);
    }
    order_from(a_le_b, b_le_a)
}

/// Whether a comparison came out `Equal`.
pub fn is_equal(o: Option<Ordering>) -> (r: bool)
    ensures
        r == (o == Some(Ordering::Equal)),
{
    match o {
        Some(Ordering::Equal) => true,
        _ => false,
    }
}

/// Whether a comparison came out `Less`.
pub fn is_less(o: Option<Ordering>) -> (r: bool)
    ensures
        r == (o == Some(Ordering::Less)),
{
    match o {
        Some(Ordering::Less) => true,
        _ => false,
    }
}

/// Whether a comparison came out `Greater`.
pub fn is_greater(o: Option<Ordering>) -> (r: bool)
    ensures
        r == (o == Some(Ordering::Greater)),
{
    match o {
        Some(Ordering::Greater) => true,
        _ => false,
    }
}

/// Whether two comparisons agree.
pub fn same_order(a: Option<Ordering>, b: Option<Ordering>) -> (r: bool)
    ensures
        r == (a == b),
{
    match (a, b) {
        (None, None) => true,
        (Some(Ordering::Less), Some(Ordering::Less)) => true,
        (Some(Ordering::Equal), Some(Ordering::Equal)) => true,
        (Some(Ordering::Greater), Some(Ordering::Greater)) => true,
        _ => false,
    }
}

} // verus!
