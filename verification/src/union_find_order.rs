//! Equality and partial order of union-finds: two union-finds are equal when they describe
//! the same partition, and one lies below another when every class of the first lies inside
//! a class of the second.
use core::cmp::Ordering;
use vstd::prelude::*;
use vstd::std_specs::cmp::{PartialEqSpecImpl, PartialOrdSpecImpl};

use crate::order::{naive_cmp, order_of};
use crate::union_find::UnionFind;

verus! {

impl PartialEq for UnionFind {
    fn eq(&self, other: &Self) -> (r: bool) {
        let a = self.normalized();
        let b = other.normalized();
        crate::lattice::LatticeEq::lattice_eq(&a, &b)
    }
}

impl PartialEqSpecImpl for UnionFind {
    open spec fn obeys_eq_spec() -> bool {
        true
    }

    open spec fn eq_spec(&self, other: &Self) -> bool {
        self@ == other@
    }
}

impl Eq for UnionFind {

}

impl PartialOrd for UnionFind {
    fn partial_cmp(&self, other: &Self) -> (r: Option<Ordering>) {
        let a = self.normalized();
        let b = other.normalized();
        naive_cmp(&a, &b)
    }
}

impl PartialOrdSpecImpl for UnionFind {
    open spec fn obeys_partial_cmp_spec() -> bool {
        true
    }

    open spec fn partial_cmp_spec(&self, other: &Self) -> Option<Ordering> {
        order_of::<UnionFind>(self@, other@)
    }
}

} // verus!
