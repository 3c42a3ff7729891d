//! The product of two lattices, ordered and joined component by component.
use vstd::prelude::*;

use crate::lattice::{lattice_le, IsBot, IsTop, Lattice, LatticeEq, LatticeOrd, Merge};

verus! {

/// Pair lattice.
#[derive(Clone, Debug)]
pub struct Pair<A, B> {
    a: A,
    b: B,
}

impl<A: View, B: View> View for Pair<A, B> {
    type V = (A::V, B::V);

    closed spec fn view(&self) -> (A::V, B::V) {
        (self.a@, self.b@)
    }
}

impl<A: Merge, B: Merge> Pair<A, B> {
    /// Pairs two lattice values.
    pub fn new(a: A, b: B) -> (r: Self)
        ensures
            r@ == (a@, b@),
            r.wf() == (a.wf() && b.wf()),
            r.mergeable() == (a.mergeable() && b.mergeable()),
    {
        Pair { a, b }
    }

    /// The two components, consuming `self`.
    pub fn into_reveal(self) -> (r: (A, B))
        ensures
            (r.0@, r.1@) == self@,
    {
        (self.a, self.b)
    }

    /// References to the two components.
    pub fn as_reveal_ref(&self) -> (r: (&A, &B))
        ensures
            (r.0@, r.1@) == self@,
    {
        (&self.a, &self.b)
    }
}

impl<A: Merge, B: Merge> Merge for Pair<A, B> {
    open spec fn is_point(v: (A::V, B::V)) -> bool {
        A::is_point(v.0) && B::is_point(v.1)
    }

    open spec fn join(x: (A::V, B::V), y: (A::V, B::V)) -> (A::V, B::V) {
        (A::join(x.0, y.0), B::join(x.1, y.1))
    }

    closed spec fn wf(&self) -> bool {
        self.a.wf() && self.b.wf()
    }

    closed spec fn mergeable(&self) -> bool {
        self.a.mergeable() && self.b.mergeable()
    }

    proof fn lemma_wf_mergeable(x: &Self) {
        A::lemma_wf_mergeable(&x.a);
        B::lemma_wf_mergeable(&x.b);
    }

    proof fn lemma_view_is_point(x: &Self) {
        A::lemma_view_is_point(&x.a);
        B::lemma_view_is_point(&x.b);
    }

    proof fn lemma_join_laws(x: (A::V, B::V), y: (A::V, B::V), z: (A::V, B::V)) {
        A::lemma_join_laws(x.0, y.0, z.0);
        B::lemma_join_laws(x.1, y.1, z.1);
    }

    /// Merges each component; returns whether either changed.
    fn merge(&mut self, other: Self) -> (changed: bool) {
        let ca = self.a.merge(other.a);
        let cb = self.b.merge(other.b);
        ca || cb
    }
}

impl<A: LatticeEq, B: LatticeEq> LatticeEq for Pair<A, B> {
    fn lattice_eq(&self, other: &Self) -> (r: bool) {
        self.a.lattice_eq(&other.a) && self.b.lattice_eq(&other.b)
    }

    fn clone_point(&self) -> (r: Self) {
        let r = Pair { a: self.a.clone_point(), b: self.b.clone_point() };
        proof {
            A::lemma_wf_mergeable(&r.a);
            B::lemma_wf_mergeable(&r.b);
        }
        r
    }
}

impl<A: LatticeOrd, B: LatticeOrd> LatticeOrd for Pair<A, B> {
    fn lattice_le(&self, other: &Self) -> (r: bool) {
        self.a.lattice_le(&other.a) && self.b.lattice_le(&other.b)
    }
}

impl<A: IsBot, B: IsBot> IsBot for Pair<A, B> {
    open spec fn bot_point() -> (A::V, B::V) {
        (A::bot_point(), B::bot_point())
    }

    proof fn lemma_bot_least(v: (A::V, B::V)) {
        A::lemma_bot_least(v.0);
        B::lemma_bot_least(v.1);
    }

    fn is_bot(&self) -> (r: bool) {
        self.a.is_bot() && self.b.is_bot()
    }
}

impl<A: IsTop, B: IsTop> IsTop for Pair<A, B> {
    open spec fn is_top_point(v: (A::V, B::V)) -> bool {
        A::is_top_point(v.0) && B::is_top_point(v.1)
    }

    proof fn lemma_top_greatest(t: (A::V, B::V), v: (A::V, B::V)) {
        A::lemma_top_greatest(t.0, v.0);
        B::lemma_top_greatest(t.1, v.1);
    }

    fn is_top(&self) -> (r: bool) {
        self.a.is_top() && self.b.is_top()
    }
}

impl<A: Lattice, B: Lattice> Lattice for Pair<A, B> {

}

} // verus!
