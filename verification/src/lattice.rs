//! Core lattice traits and the simple `Min` / `Max` lattices.
use vstd::prelude::*;

verus! {

/// A join-semilattice value. The abstract lattice point of a value is its view.
pub trait Merge: View + Sized {
    /// Whether `v` is a point of this lattice.
    spec fn is_point(v: Self::V) -> bool;

    /// Least upper bound of two points.
    spec fn join(a: Self::V, b: Self::V) -> Self::V;

    /// Representation invariant that operations on a value rely on.
    spec fn wf(&self) -> bool;

    /// What `merge` needs of the value merged in; weaker than `wf`.
    spec fn mergeable(&self) -> bool;

    /// Well-formed values can be merged in.
    proof fn lemma_wf_mergeable(x: &Self)
        requires
            x.wf(),
        ensures
            x.mergeable(),
    ;

    /// Every value stands for a point of the lattice.
    proof fn lemma_view_is_point(x: &Self)
        ensures
            Self::is_point(x@),
    ;

    /// `join` is closed, idempotent, commutative and associative on points.
    proof fn lemma_join_laws(a: Self::V, b: Self::V, c: Self::V)
        requires
            Self::is_point(a),
            Self::is_point(b),
            Self::is_point(c),
        ensures
            Self::is_point(Self::join(a, b)),
            Self::join(a, a) == a,
            Self::join(a, b) == Self::join(b, a),
            Self::join(a, Self::join(b, c)) == Self::join(Self::join(a, b), c),
    ;

    /// Merges `other` into `self`; returns whether `self` changed.
    fn merge(&mut self, other: Self) -> (changed: bool)
        requires
            old(self).wf(),
            other.mergeable(),
        ensures
            final(self).wf(),
            final(self)@ == Self::join(old(self)@, other@),
            changed == (final(self)@ != old(self)@),
    ;
}

/// The lattice order: `a` is below `b` when joining `a` into `b` leaves `b` unchanged.
pub open spec fn lattice_le<T: Merge>(a: T::V, b: T::V) -> bool {
    T::join(a, b) == b
}

/// Exact copies and equality of lattice values.
pub trait LatticeEq: Merge {
    /// Whether two values stand for the same lattice point.
    fn lattice_eq(&self, other: &Self) -> (r: bool)
        requires
            self.wf(),
            other.wf(),
        ensures
            r == (self@ == other@),
    ;

    /// A copy standing for the same point.
    fn clone_point(&self) -> (r: Self)
        requires
            self.wf(),
        ensures
            r@ == self@,
            r.wf(),
            r.mergeable(),
    ;
}

/// A lattice that can decide its order directly.
pub trait LatticeOrd: LatticeEq {
    /// Whether `self` is below or equal to `other` in the lattice order.
    fn lattice_le(&self, other: &Self) -> (r: bool)
        requires
            self.wf(),
            other.wf(),
        ensures
            r == lattice_le::<Self>(self@, other@),
    ;
}

/// A lattice with a least element.
pub trait IsBot: Merge {
    /// The least point.
    spec fn bot_point() -> Self::V;

    /// The least point lies below every point.
    proof fn lemma_bot_least(a: Self::V)
        requires
            Self::is_point(a),
        ensures
            Self::is_point(Self::bot_point()),
            Self::join(Self::bot_point(), a) == a,
    ;

    /// Whether `self` is the least point.
    fn is_bot(&self) -> (r: bool)
        ensures
            r == (self@ == Self::bot_point()),
    ;
}

/// A lattice that may hold a greatest element.
pub trait IsTop: Merge {
    /// Whether `v` is a greatest point.
    spec fn is_top_point(v: Self::V) -> bool;

    /// A greatest point lies above every point.
    proof fn lemma_top_greatest(t: Self::V, a: Self::V)
        requires
            Self::is_point(a),
        ensures
            Self::is_top_point(t) ==> Self::join(a, t) == t,
    ;

    /// Whether `self` is a greatest point.
    fn is_top(&self) -> (r: bool)
        ensures
            r == Self::is_top_point(self@),
    ;
}

/// A lattice with equality, order, bottom and top tests.
pub trait Lattice: LatticeOrd + IsBot + IsTop {

}

/// A lattice whose points can be reduced by another point: `unmerge` removes from `self`
/// what `other` holds.
pub trait Unmerge: Merge {
    /// The point left of `a` once what `b` holds is removed.
    spec fn unjoin(a: Self::V, b: Self::V) -> Self::V;

    /// Removes from `self` what `other` holds; returns whether `self` changed.
    fn unmerge(&mut self, other: &Self) -> (changed: bool)
        requires
            old(self).wf(),
            other.wf(),
        ensures
            final(self).wf(),
            final(self)@ == Self::unjoin(old(self)@, other@),
            changed == (final(self)@ != old(self)@),
    ;
}

/// Joins the points of `atoms` into `start`, from first to last.
pub open spec fn join_all<T: Merge>(start: T::V, atoms: Seq<T::V>) -> T::V
    decreases atoms.len(),
{
    if atoms.len() == 0 {
        start
    } else {
        T::join(join_all::<T>(start, atoms.drop_last()), atoms.last())
    }
}

/// Joining points into any start gives the start joined with what the same points join to
/// from bottom.
pub proof fn lemma_join_all_from<T: IsBot>(start: T::V, atoms: Seq<T::V>)
    requires
        T::is_point(start),
        forall|i: int| 0 <= i < atoms.len() ==> T::is_point(#[trigger] atoms[i]),
    ensures
        T::is_point(join_all::<T>(T::bot_point(), atoms)),
        join_all::<T>(start, atoms) == T::join(start, join_all::<T>(T::bot_point(), atoms)),
    decreases atoms.len(),
{
    T::lemma_bot_least(start);
    if atoms.len() == 0 {
        T::lemma_join_laws(start, T::bot_point(), start);
    } else {
        let init = atoms.drop_last();
        lemma_join_all_from::<T>(start, init);
        let j0 = join_all::<T>(T::bot_point(), init);
        T::lemma_join_laws(start, j0, atoms.last());
        T::lemma_join_laws(j0, atoms.last(), start);
    }
}

/// The points of a sequence of lattice values.
pub open spec fn points_of<T: Merge>(s: Seq<T>) -> Seq<T::V> {
    s.map_values(|x: T| x@)
}

/// A lattice whose points split into non-bottom atoms that join back to the point.
pub trait Atomize: IsBot {
    /// Splits `self` into atoms: none is bottom, they are empty exactly when `self` is
    /// bottom, and joining them into bottom gives back `self`.
    fn atomize(self) -> (atoms: Vec<Self>)
        requires
            self.wf(),
        ensures
            forall|i: int| 0 <= i < atoms@.len() ==> (#[trigger] atoms@[i]).wf(),
            forall|i: int| 0 <= i < atoms@.len() ==> (#[trigger] atoms@[i])@ != Self::bot_point(),
            (atoms@.len() == 0) == (self@ == Self::bot_point()),
            join_all::<Self>(Self::bot_point(), points_of(atoms@)) == self@,
    ;
}

/// Merges two owned values and returns the result.
pub fn merge_owned<T: Merge>(this: T, other: T) -> (r: T)
    requires
        this.wf(),
        other.mergeable(),
    ensures
        r.wf(),
        r@ == T::join(this@, other@),
{
    let mut this = this;
    this.merge(other);
    this
}

/// Lattice whose join takes the larger of two values.
#[derive(Clone, Copy, Debug)]
pub struct Max<T> {
    val: T,
}

impl<T> View for Max<T> {
    type V = T;

    closed spec fn view(&self) -> T {
        self.val
    }
}

impl<T> Max<T> {
    /// Wraps a value.
    pub fn new(val: T) -> (r: Self)
        ensures
            r@ == val,
    {
        Max { val }
    }

    /// Returns the wrapped value.
    pub fn into_reveal(self) -> (r: T)
        ensures
            r == self@,
    {
        self.val
    }

    /// Returns a reference to the wrapped value.
    pub fn as_reveal_ref(&self) -> (r: &T)
        ensures
            *r == self@,
    {
        &self.val
    }
}

/// Lattice whose join takes the smaller of two values.
#[derive(Clone, Copy, Debug)]
pub struct Min<T> {
    val: T,
}

impl<T> View for Min<T> {
    type V = T;

    closed spec fn view(&self) -> T {
        self.val
    }
}

impl<T> Min<T> {
    /// Wraps a value.
    pub fn new(val: T) -> (r: Self)
        ensures
            r@ == val,
    {
        Min { val }
    }

    /// Returns the wrapped value.
    pub fn into_reveal(self) -> (r: T)
        ensures
            r == self@,
    {
        self.val
    }

    /// Returns a reference to the wrapped value.
    pub fn as_reveal_ref(&self) -> (r: &T)
        ensures
            *r == self@,
    {
        &self.val
    }
}

impl Merge for Max<u64> {
    open spec fn is_point(v: u64) -> bool {
        true
    }

    open spec fn join(a: u64, b: u64) -> u64 {
        if a < b { b } else { a }
    }

    open spec fn wf(&self) -> bool {
        true
    }

    open spec fn mergeable(&self) -> bool {
        true
    }

    proof fn lemma_wf_mergeable(x: &Self) {
    }

    proof fn lemma_view_is_point(x: &Self) {
    }

    proof fn lemma_join_laws(a: u64, b: u64, c: u64) {
    }

    fn merge(&mut self, other: Self) -> (changed: bool) {
        if self.val < other.val {
            self.val = other.val;
            true
        } else {
            false
        }
    }
}

impl Merge for Min<u64> {
    open spec fn is_point(v: u64) -> bool {
        true
    }

    open spec fn join(a: u64, b: u64) -> u64 {
        if b < a { b } else { a }
    }

    open spec fn wf(&self) -> bool {
        true
    }

    open spec fn mergeable(&self) -> bool {
        true
    }

    proof fn lemma_wf_mergeable(x: &Self) {
    }

    proof fn lemma_view_is_point(x: &Self) {
    }

    proof fn lemma_join_laws(a: u64, b: u64, c: u64) {
    }

    fn merge(&mut self, other: Self) -> (changed: bool) {
        if other.val < self.val {
            self.val = other.val;
            true
        } else {
            false
        }
    }
}

impl Merge for Max<bool> {
    open spec fn is_point(v: bool) -> bool {
        true
    }

    open spec fn join(a: bool, b: bool) -> bool {
        a || b
    }

    open spec fn wf(&self) -> bool {
        true
    }

    open spec fn mergeable(&self) -> bool {
        true
    }

    proof fn lemma_wf_mergeable(x: &Self) {
    }

    proof fn lemma_view_is_point(x: &Self) {
    }

    proof fn lemma_join_laws(a: bool, b: bool, c: bool) {
    }

    fn merge(&mut self, other: Self) -> (changed: bool) {
        if !self.val && other.val {
            self.val = true;
            true
        } else {
            false
        }
    }
}

impl Merge for Min<bool> {
    open spec fn is_point(v: bool) -> bool {
        true
    }

    open spec fn join(a: bool, b: bool) -> bool {
        a && b
    }

    open spec fn wf(&self) -> bool {
        true
    }

    open spec fn mergeable(&self) -> bool {
        true
    }

    proof fn lemma_wf_mergeable(x: &Self) {
    }

    proof fn lemma_view_is_point(x: &Self) {
    }

    proof fn lemma_join_laws(a: bool, b: bool, c: bool) {
    }

    fn merge(&mut self, other: Self) -> (changed: bool) {
        if self.val && !other.val {
            self.val = false;
            true
        } else {
            false
        }
    }
}

impl LatticeEq for Max<u64> {
    fn lattice_eq(&self, other: &Self) -> (r: bool) {
        self.val == other.val
    }

    fn clone_point(&self) -> (r: Self) {
        *self
    }
}

impl LatticeOrd for Max<u64> {
    fn lattice_le(&self, other: &Self) -> (r: bool) {
        self.val <= other.val
    }
}

impl IsBot for Max<u64> {
    open spec fn bot_point() -> u64 {
        0u64
    }

    proof fn lemma_bot_least(a: u64) {
    }

    fn is_bot(&self) -> (r: bool) {
        self.val == 0u64
    }
}

impl IsTop for Max<u64> {
    open spec fn is_top_point(v: u64) -> bool {
        v == u64::MAX
    }

    proof fn lemma_top_greatest(t: u64, a: u64) {
    }

    fn is_top(&self) -> (r: bool) {
        let v = self.val;
        v == u64::MAX
    }
}

impl Lattice for Max<u64> {

}

impl LatticeEq for Min<u64> {
    fn lattice_eq(&self, other: &Self) -> (r: bool) {
        self.val == other.val
    }

    fn clone_point(&self) -> (r: Self) {
        *self
    }
}

impl LatticeOrd for Min<u64> {
    fn lattice_le(&self, other: &Self) -> (r: bool) {
        other.val <= self.val
    }
}

impl IsBot for Min<u64> {
    open spec fn bot_point() -> u64 {
        u64::MAX
    }

    proof fn lemma_bot_least(a: u64) {
    }

    fn is_bot(&self) -> (r: bool) {
        self.val == u64::MAX
    }
}

impl IsTop for Min<u64> {
    open spec fn is_top_point(v: u64) -> bool {
        v == 0u64
    }

    proof fn lemma_top_greatest(t: u64, a: u64) {
    }

    fn is_top(&self) -> (r: bool) {
        let v = self.val;
        v == 0u64
    }
}

impl Lattice for Min<u64> {

}

impl LatticeEq for Max<bool> {
    fn lattice_eq(&self, other: &Self) -> (r: bool) {
        self.val == other.val
    }

    fn clone_point(&self) -> (r: Self) {
        *self
    }
}

impl LatticeOrd for Max<bool> {
    fn lattice_le(&self, other: &Self) -> (r: bool) {
        !self.val || other.val
    }
}

impl IsBot for Max<bool> {
    open spec fn bot_point() -> bool {
        false
    }

    proof fn lemma_bot_least(a: bool) {
    }

    fn is_bot(&self) -> (r: bool) {
        self.val == false
    }
}

impl IsTop for Max<bool> {
    open spec fn is_top_point(v: bool) -> bool {
        v
    }

    proof fn lemma_top_greatest(t: bool, a: bool) {
    }

    fn is_top(&self) -> (r: bool) {
        let v = self.val;
        v
    }
}

impl Lattice for Max<bool> {

}

impl LatticeEq for Min<bool> {
    fn lattice_eq(&self, other: &Self) -> (r: bool) {
        self.val == other.val
    }

    fn clone_point(&self) -> (r: Self) {
        *self
    }
}

impl LatticeOrd for Min<bool> {
    fn lattice_le(&self, other: &Self) -> (r: bool) {
        self.val || !other.val
    }
}

impl IsBot for Min<bool> {
    open spec fn bot_point() -> bool {
        true
    }

    proof fn lemma_bot_least(a: bool) {
    }

    fn is_bot(&self) -> (r: bool) {
        self.val == true
    }
}

impl IsTop for Min<bool> {
    open spec fn is_top_point(v: bool) -> bool {
        !v
    }

    proof fn lemma_top_greatest(t: bool, a: bool) {
    }

    fn is_top(&self) -> (r: bool) {
        let v = self.val;
        !v
    }
}

impl Lattice for Min<bool> {

}

} // verus!
