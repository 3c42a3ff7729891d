//! The three core lattice checks run together: the lattice's own order agrees with the order
//! derived from `merge`, its own comparison follows the partial-order laws, and merging
//! follows the lattice laws by its own `==`.
use vstd::prelude::*;

use crate::checks::{
    all_wf, eq_by_points, eq_lawful, order_agrees, order_obeyed, own_lattice_properties_hold, own_order_lawful,
    own_partial_ord_properties_hold,
};
use crate::lattice::{LatticeEq, LatticeOrd};

verus! {

/// Checks that `T`'s own `partial_cmp` agrees with the order derived from `merge` on every
/// ordered pair of `items`.
pub fn check_lattice_ord<T: LatticeEq + PartialOrd>(items: &[T]) -> (r: bool)
    requires
        all_wf(items@),
    ensures
        order_obeyed::<T>() ==> r == order_agrees(items@),
{
    crate::checks::check_lattice_ord(items)
}

/// Checks the partial-order laws of `T`'s own comparison on every tuple of `items`.
pub fn check_partial_ord_properties<T: PartialOrd>(items: &[T]) -> (r: bool)
    ensures
        own_order_lawful::<T>() ==> r == own_partial_ord_properties_hold(items@),
{
    crate::checks::check_partial_ord_properties(items)
}

/// Checks idempotence, commutativity and associativity of merging, by `T`'s own `==`, on
/// every tuple of `items`.
pub fn check_lattice_properties<T: LatticeEq + PartialEq>(items: &[T]) -> (r: bool)
    requires
        all_wf(items@),
    ensures
        eq_lawful::<T>() ==> r == own_lattice_properties_hold(items@),
{
    crate::checks::check_lattice_properties(items)
}

/// Runs the three checks of this module.
pub fn check_all<T: LatticeOrd + PartialOrd>(items: &[T]) -> (r: bool)
    requires
        all_wf(items@),
    ensures
        own_order_lawful::<T>() && eq_by_points::<T>() ==> r == (order_agrees(items@)
            && own_partial_ord_properties_hold(items@) && own_lattice_properties_hold(items@)),
{
    let ord = check_lattice_ord(items);
    let partial = check_partial_ord_properties(items);
    let props = check_lattice_properties(items);
    ord && partial && props
}

} // verus!
