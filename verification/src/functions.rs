//! Lattice bimorphisms: binary functions that are a join-homomorphism in each argument.
use core::marker::PhantomData;
use vstd::prelude::*;

use crate::lattice::{merge_owned, LatticeEq, LatticeOrd, Merge};
use crate::map_union::MapUnion;
use crate::set_union::{Item, SetUnion};

verus! {

/// A binary function on lattice values, given as a function of lattice points.
pub trait LatticeBimorphism<LatA: Merge, LatB: Merge>: Sized {
    /// The output lattice.
    type Output: LatticeEq;

    /// The output point for two input points.
    spec fn output_of(&self, a: LatA::V, b: LatB::V) -> <Self::Output as View>::V;

    /// Applies the function.
    fn call(&mut self, lat_a: LatA, lat_b: LatB) -> (r: Self::Output)
        requires
            lat_a.wf(),
            lat_b.wf(),
        ensures
            *final(self) == *old(self),
            r@ == old(self).output_of(lat_a@, lat_b@),
            r.wf(),
    ;
}

/// `f(a ⊔ da, b) = f(a, b) ⊔ f(da, b)` and `f(a, b ⊔ db) = f(a, b) ⊔ f(a, db)` for all points.
pub open spec fn is_bimorphism<LatA: Merge, LatB: Merge, F: LatticeBimorphism<LatA, LatB>>(
    f: F,
) -> bool {
    &&& forall|a: LatA::V, da: LatA::V, b: LatB::V|
        LatA::is_point(a) && LatA::is_point(da) && LatB::is_point(b) ==> #[trigger] f.output_of(
            LatA::join(a, da),
            b,
        ) == F::Output::join(f.output_of(a, b), f.output_of(da, b))
    &&& forall|a: LatA::V, b: LatB::V, db: LatB::V|
        LatA::is_point(a) && LatB::is_point(b) && LatB::is_point(db) ==> #[trigger] f.output_of(
            a,
            LatB::join(b, db),
        ) == F::Output::join(f.output_of(a, b), f.output_of(a, db))
}

/// The closure is defined on all well-formed inputs, gives well-formed outputs, and its
/// output point depends only on the input points.
pub open spec fn closure_on_points<LatA: Merge, LatB: Merge, LatOut: Merge, F: Fn(LatA, LatB) -> LatOut>(
    f: F,
) -> bool {
    &&& forall|a: LatA, b: LatB| a.wf() && b.wf() ==> #[trigger] call_requires(f, (a, b))
    &&& forall|a: LatA, b: LatB, r: LatOut| #[trigger] call_ensures(f, (a, b), r) ==> r.wf()
    &&& forall|a1: LatA, b1: LatB, r1: LatOut, a2: LatA, b2: LatB, r2: LatOut|
        #[trigger] call_ensures(f, (a1, b1), r1) && #[trigger] call_ensures(f, (a2, b2), r2) && a1@
            == a2@ && b1@ == b2@ ==> r1@ == r2@
}

/// A lattice bimorphism given by a closure.
#[verifier::reject_recursive_types(LatA)]
#[verifier::reject_recursive_types(LatB)]
#[verifier::reject_recursive_types(LatOut)]
pub struct FnLatticeBimorphism<F: Fn(LatA, LatB) -> LatOut, LatA: Merge, LatB: Merge, LatOut: LatticeEq> {
    func: F,
    _phantom: PhantomData<(LatA, LatB, LatOut)>,
}

impl<F: Fn(LatA, LatB) -> LatOut, LatA: Merge, LatB: Merge, LatOut: LatticeEq> FnLatticeBimorphism<
    F,
    LatA,
    LatB,
    LatOut,
> {
    #[verifier::type_invariant]
    spec fn inv(self) -> bool {
        closure_on_points::<LatA, LatB, LatOut, F>(self.func)
    }
}

impl<F: Fn(LatA, LatB) -> LatOut, LatA: Merge, LatB: Merge, LatOut: LatticeEq> LatticeBimorphism<
    LatA,
    LatB,
> for FnLatticeBimorphism<F, LatA, LatB, LatOut> {
    type Output = LatOut;

    /// The point of any output of the closure on inputs with these points.
    closed spec fn output_of(&self, a: LatA::V, b: LatB::V) -> LatOut::V {
        (choose|t: (LatA, LatB, LatOut)|
            t.0@ == a && t.1@ == b && #[trigger] call_ensures(self.func, (t.0, t.1), t.2)).2@
    }

    fn call(&mut self, lat_a: LatA, lat_b: LatB) -> (r: LatOut) {
        proof {
            use_type_invariant(&*self);
        }
        let ghost a = lat_a;
        let ghost b = lat_b;
        let r = (self.func)(lat_a, lat_b);
        proof {
            let w = (a, b, r);
            assert(w.0@ == a@ && w.1@ == b@ && call_ensures(self.func, (w.0, w.1), w.2));
            let t = choose|t: (LatA, LatB, LatOut)|
                t.0@ == a@ && t.1@ == b@ && #[trigger] call_ensures(self.func, (t.0, t.1), t.2);
            assert(call_ensures(self.func, (t.0, t.1), t.2));
        }
        r
    }
}

/// Wraps a closure that acts on lattice points as a lattice bimorphism.
pub fn wrap_closure_lattice_bimorphism<LatA: Merge, LatB: Merge, LatOut: LatticeEq, F: Fn(LatA, LatB) -> LatOut>(
    func: F,
) -> (r: FnLatticeBimorphism<F, LatA, LatB, LatOut>)
    requires
        closure_on_points::<LatA, LatB, LatOut, F>(func),
    ensures
        forall|a: LatA, b: LatB, out: LatOut|
            a.wf() && b.wf() && #[trigger] call_ensures(func, (a, b), out) ==> r.output_of(a@, b@)
                == out@,
{
    let r = FnLatticeBimorphism { func, _phantom: PhantomData };
    proof {
        assert forall|a: LatA, b: LatB, out: LatOut|
            a.wf() && b.wf() && #[trigger] call_ensures(func, (a, b), out) implies r.output_of(a@, b@)
                == out@ by {
            let w = (a, b, out);
            assert(w.0@ == a@ && w.1@ == b@ && call_ensures(func, (w.0, w.1), w.2));
            let t = choose|t: (LatA, LatB, LatOut)|
                t.0@ == a@ && t.1@ == b@ && #[trigger] call_ensures(func, (t.0, t.1), t.2);
            assert(call_ensures(func, (t.0, t.1), t.2));
        }
    }
    r
}

/// The set of pairs `(x, y)` with `x` in `a` and `y` in `b`.
pub open spec fn product_set(a: Set<u64>, b: Set<u64>) -> Set<(u64, u64)> {
    Set::new(|p: (u64, u64)| a.contains(p.0) && b.contains(p.1))
}

/// The cartesian product of two sets, as a lattice bimorphism.
pub struct CartesianProductFn {
    _private: (),
}

impl CartesianProductFn {
    /// The cartesian product function.
    pub fn default() -> (r: Self) {
        CartesianProductFn { _private: () }
    }
}

impl LatticeBimorphism<SetUnion<u64>, SetUnion<u64>> for CartesianProductFn {
    type Output = SetUnion<(u64, u64)>;

    open spec fn output_of(&self, a: Set<u64>, b: Set<u64>) -> Set<(u64, u64)> {
        product_set(a, b)
    }

    fn call(&mut self, lat_a: SetUnion<u64>, lat_b: SetUnion<u64>) -> (r: SetUnion<(u64, u64)>) {
        let set_a = lat_a.into_reveal();
        let set_b = lat_b.as_reveal_ref();
        let mut out: SetUnion<(u64, u64)> = SetUnion::empty();
        let mut i: usize = 0;
        while i < set_a.len()
            invariant
                out.wf(),
                i <= set_a@.len(),
                set_a@.to_set() == lat_a@,
                set_b@.to_set() == lat_b@,
                out@ == product_set(set_a@.take(i as int).to_set(), lat_b@),
            decreases set_a@.len() - i,
        {
            let x = set_a[i];
            let mut j: usize = 0;
            while j < set_b.len()
                invariant
                    out.wf(),
                    i < set_a@.len(),
                    x == set_a@[i as int],
                    j <= set_b@.len(),
                    set_b@.to_set() == lat_b@,
                    out@ == product_set(set_a@.take(i as int).to_set(), lat_b@).union(
                        product_set(set![x], set_b@.take(j as int).to_set()),
                    ),
                decreases set_b@.len() - j,
            {
                let y = set_b[j];
                out.insert((x, y));
                proof {
                    set_b@.take(j as int).lemma_push_to_set_commute(y);
                    assert(set_b@.take(j + 1) == set_b@.take(j as int).push(y));
                    assert(out@ =~= product_set(set_a@.take(i as int).to_set(), lat_b@).union(
                        product_set(set![x], set_b@.take(j + 1).to_set()),
                    ));
                }
                j = j + 1;
            }
            proof {
                set_a@.take(i as int).lemma_push_to_set_commute(x);
                assert(set_a@.take(i + 1) == set_a@.take(i as int).push(x));
                assert(set_b@.take(set_b@.len() as int) == set_b@);
                assert(out@ =~= product_set(set_a@.take(i + 1).to_set(), lat_b@));
            }
            i = i + 1;
        }
        proof {
            assert(set_a@.take(set_a@.len() as int) == set_a@);
        }
        out
    }
}

/// The cartesian product is a lattice bimorphism.
pub proof fn lemma_cartesian_product_is_bimorphism(f: CartesianProductFn)
    ensures
        is_bimorphism::<SetUnion<u64>, SetUnion<u64>, CartesianProductFn>(f),
{
    assert forall|a: Set<u64>, da: Set<u64>, b: Set<u64>| #[trigger] f.output_of(a.union(da), b) == product_set(
        a,
        b,
    ).union(product_set(da, b)) by {
        assert(product_set(a.union(da), b) =~= product_set(a, b).union(product_set(da, b)));
    }
    assert forall|a: Set<u64>, b: Set<u64>, db: Set<u64>| #[trigger] f.output_of(a, b.union(db)) == product_set(
        a,
        b,
    ).union(product_set(a, db)) by {
        assert(product_set(a, b.union(db)) =~= product_set(a, b).union(product_set(a, db)));
    }
}

/// Lifts a bimorphism on values to maps: keys present in both maps are kept, with the
/// function applied to their two values.
pub struct KeyLatticeBimorphism<F>(pub F);

/// Keys of both maps, bound to `f` of their two values.
pub open spec fn key_join_view<K, VA: Merge, VB: Merge, F: LatticeBimorphism<VA, VB>>(
    f: F,
    a: Map<K, VA::V>,
    b: Map<K, VB::V>,
) -> Map<K, <F::Output as View>::V> {
    Map::new(|k: K| a.contains_key(k) && b.contains_key(k), |k: K| f.output_of(a[k], b[k]))
}

impl<K: Item, VA: LatticeOrd, VB: LatticeOrd, F: LatticeBimorphism<VA, VB>> LatticeBimorphism<
    MapUnion<K, VA>,
    MapUnion<K, VB>,
> for KeyLatticeBimorphism<F> where F::Output: LatticeOrd {
    type Output = MapUnion<K, F::Output>;

    open spec fn output_of(&self, a: Map<K, VA::V>, b: Map<K, VB::V>) -> Map<
        K,
        <F::Output as View>::V,
    > {
        key_join_view::<K, VA, VB, F>(self.0, a, b)
    }

    fn call(&mut self, lat_a: MapUnion<K, VA>, lat_b: MapUnion<K, VB>) -> (r: MapUnion<
        K,
        F::Output,
    >) {
        let mut output: MapUnion<K, F::Output> = MapUnion::empty();
        let (keys, vals) = lat_a.as_reveal_ref();
        let ghost f0 = self.0;
        let mut i: usize = 0;
        while i < keys.len()
            invariant
                self.0 == f0,
                output.wf(),
                lat_a.wf(),
                lat_b.wf(),
                i <= keys@.len(),
                keys@.len() == vals@.len(),
                keys@.to_set() == lat_a@.dom(),
                forall|j: int| 0 <= j < keys@.len() ==> #[trigger] lat_a@[keys@[j]] == vals@[j]@,
                forall|j: int| 0 <= j < vals@.len() ==> (#[trigger] vals@[j]).wf(),
                output@ == key_join_view::<K, VA, VB, F>(f0, lat_a@, lat_b@).restrict(
                    keys@.take(i as int).to_set(),
                ),
            decreases keys@.len() - i,
        {
            let key = &keys[i];
            proof {
                keys@.take(i as int).lemma_push_to_set_commute(*key);
                assert(keys@.take(i + 1) == keys@.take(i as int).push(*key));
                assert(keys@.to_set().contains(*key));
            }
            match lat_b.get(key) {
                Some(val_b) => {
                    let val_a = vals[i].clone_point();
                    let val_b = val_b.clone_point();
                    let val_out = self.0.call(val_a, val_b);
                    output.insert(key.copy_item(), val_out);
                    proof {
                        assert(output@ =~= key_join_view::<K, VA, VB, F>(f0, lat_a@, lat_b@).restrict(
                            keys@.take(i + 1).to_set(),
                        ));
                    }
                },
                None => {
                    proof {
                        assert(output@ =~= key_join_view::<K, VA, VB, F>(f0, lat_a@, lat_b@).restrict(
                            keys@.take(i + 1).to_set(),
                        ));
                    }
                },
            }
            i = i + 1;
        }
        proof {
            assert(keys@.take(keys@.len() as int) == keys@);
            assert(output@ =~= key_join_view::<K, VA, VB, F>(f0, lat_a@, lat_b@));
        }
        output
    }
}

/// Lifting a bimorphism to maps gives a bimorphism.
pub proof fn lemma_key_lift_is_bimorphism<K: Item, VA: LatticeOrd, VB: LatticeOrd, F: LatticeBimorphism<VA, VB>>(
    f: KeyLatticeBimorphism<F>,
)
    where F::Output: LatticeOrd
    requires
        is_bimorphism::<VA, VB, F>(f.0),
    ensures
        is_bimorphism::<MapUnion<K, VA>, MapUnion<K, VB>, KeyLatticeBimorphism<F>>(f),
{
    assert forall|a: Map<K, VA::V>, da: Map<K, VA::V>, b: Map<K, VB::V>|
        MapUnion::<K, VA>::is_point(a) && MapUnion::<K, VA>::is_point(da) && MapUnion::<K, VB>::is_point(b)
        implies #[trigger] f.output_of(MapUnion::<K, VA>::join(a, da), b)
        == MapUnion::<K, F::Output>::join(f.output_of(a, b), f.output_of(da, b)) by {
        let l = f.output_of(MapUnion::<K, VA>::join(a, da), b);
        let r = MapUnion::<K, F::Output>::join(f.output_of(a, b), f.output_of(da, b));
        assert forall|k: K| #[trigger] l.contains_key(k) implies l[k] == r[k] by {
            if a.contains_key(k) && da.contains_key(k) {
                assert(f.0.output_of(VA::join(a[k], da[k]), b[k]) == F::Output::join(
                    f.0.output_of(a[k], b[k]),
                    f.0.output_of(da[k], b[k]),
                ));
            }
        }
        assert(l =~= r);
    }
    assert forall|a: Map<K, VA::V>, b: Map<K, VB::V>, db: Map<K, VB::V>|
        MapUnion::<K, VA>::is_point(a) && MapUnion::<K, VB>::is_point(b) && MapUnion::<K, VB>::is_point(db)
        implies #[trigger] f.output_of(a, MapUnion::<K, VB>::join(b, db))
        == MapUnion::<K, F::Output>::join(f.output_of(a, b), f.output_of(a, db)) by {
        let l = f.output_of(a, MapUnion::<K, VB>::join(b, db));
        let r = MapUnion::<K, F::Output>::join(f.output_of(a, b), f.output_of(a, db));
        assert forall|k: K| #[trigger] l.contains_key(k) implies l[k] == r[k] by {
            if b.contains_key(k) && db.contains_key(k) {
                assert(f.0.output_of(a[k], VB::join(b[k], db[k])) == F::Output::join(
                    f.0.output_of(a[k], b[k]),
                    f.0.output_of(a[k], db[k]),
                ));
            }
        }
        assert(l =~= r);
    }
}

/// The left argument of `f` is a join-homomorphism at `(a, da, b)`.
pub open spec fn left_morphism_at<LatA: Merge, LatB: Merge, F: LatticeBimorphism<LatA, LatB>>(
    f: F,
    a: LatA::V,
    da: LatA::V,
    b: LatB::V,
) -> bool {
    f.output_of(LatA::join(a, da), b) == F::Output::join(f.output_of(a, b), f.output_of(da, b))
}

/// The right argument of `f` is a join-homomorphism at `(a, b, db)`.
pub open spec fn right_morphism_at<LatA: Merge, LatB: Merge, F: LatticeBimorphism<LatA, LatB>>(
    f: F,
    a: LatA::V,
    b: LatB::V,
    db: LatB::V,
) -> bool {
    f.output_of(a, LatB::join(b, db)) == F::Output::join(f.output_of(a, b), f.output_of(a, db))
}

/// Both morphism equations on every tuple drawn from the samples.
pub open spec fn bimorphism_holds_on<LatA: Merge, LatB: Merge, F: LatticeBimorphism<LatA, LatB>>(
    f: F,
    items_a: Seq<LatA>,
    items_b: Seq<LatB>,
) -> bool {
    &&& forall|i: int, j: int, k: int|
        0 <= i < items_a.len() && 0 <= j < items_a.len() && 0 <= k < items_b.len()
            ==> #[trigger] left_morphism_at(f, items_a[i]@, items_a[j]@, items_b[k]@)
    &&& forall|i: int, j: int, k: int|
        0 <= i < items_a.len() && 0 <= j < items_b.len() && 0 <= k < items_b.len()
            ==> #[trigger] right_morphism_at(f, items_a[i]@, items_b[j]@, items_b[k]@)
}

/// A bimorphism passes the check on any samples.
pub proof fn lemma_bimorphism_holds_on<LatA: Merge, LatB: Merge, F: LatticeBimorphism<LatA, LatB>>(
    f: F,
    items_a: Seq<LatA>,
    items_b: Seq<LatB>,
)
    requires
        is_bimorphism(f),
    ensures
        bimorphism_holds_on(f, items_a, items_b),
{
    assert forall|i: int, j: int, k: int|
        0 <= i < items_a.len() && 0 <= j < items_a.len() && 0 <= k < items_b.len()
        implies #[trigger] left_morphism_at(f, items_a[i]@, items_a[j]@, items_b[k]@) by {
        LatA::lemma_view_is_point(&items_a[i]);
        LatA::lemma_view_is_point(&items_a[j]);
        LatB::lemma_view_is_point(&items_b[k]);
        assert(f.output_of(LatA::join(items_a[i]@, items_a[j]@), items_b[k]@) == F::Output::join(
            f.output_of(items_a[i]@, items_b[k]@),
            f.output_of(items_a[j]@, items_b[k]@),
        ));
    }
    assert forall|i: int, j: int, k: int|
        0 <= i < items_a.len() && 0 <= j < items_b.len() && 0 <= k < items_b.len()
        implies #[trigger] right_morphism_at(f, items_a[i]@, items_b[j]@, items_b[k]@) by {
        LatA::lemma_view_is_point(&items_a[i]);
        LatB::lemma_view_is_point(&items_b[j]);
        LatB::lemma_view_is_point(&items_b[k]);
        assert(f.output_of(items_a[i]@, LatB::join(items_b[j]@, items_b[k]@)) == F::Output::join(
            f.output_of(items_a[i]@, items_b[j]@),
            f.output_of(items_a[i]@, items_b[k]@),
        ));
    }
}

fn check_left<LatA: LatticeEq, LatB: LatticeEq, F: LatticeBimorphism<LatA, LatB>>(
    func: &mut F,
    a: &LatA,
    da: &LatA,
    b: &LatB,
) -> (r: bool)
    requires
        a.wf(),
        da.wf(),
        b.wf(),
    ensures
        *final(func) == *old(func),
        r == left_morphism_at(*old(func), a@, da@, b@),
{
    proof {
        LatA::lemma_wf_mergeable(da);
    }
    let joined = merge_owned(a.clone_point(), da.clone_point());
    let lhs = func.call(joined, b.clone_point());
    let out_a = func.call(a.clone_point(), b.clone_point());
    let out_da = func.call(da.clone_point(), b.clone_point());
    proof {
        F::Output::lemma_wf_mergeable(&out_da);
    }
    let rhs = merge_owned(out_a, out_da);
    lhs.lattice_eq(&rhs)
}

fn check_right<LatA: LatticeEq, LatB: LatticeEq, F: LatticeBimorphism<LatA, LatB>>(
    func: &mut F,
    a: &LatA,
    b: &LatB,
    db: &LatB,
) -> (r: bool)
    requires
        a.wf(),
        b.wf(),
        db.wf(),
    ensures
        *final(func) == *old(func),
        r == right_morphism_at(*old(func), a@, b@, db@),
{
    proof {
        LatB::lemma_wf_mergeable(db);
    }
    let joined = merge_owned(b.clone_point(), db.clone_point());
    let lhs = func.call(a.clone_point(), joined);
    let out_b = func.call(a.clone_point(), b.clone_point());
    let out_db = func.call(a.clone_point(), db.clone_point());
    proof {
        F::Output::lemma_wf_mergeable(&out_db);
    }
    let rhs = merge_owned(out_b, out_db);
    lhs.lattice_eq(&rhs)
}

/// Checks on every tuple of samples that `func` is a join-homomorphism in each argument:
/// `f(a ⊔ da, b) = f(a, b) ⊔ f(da, b)` and `f(a, b ⊔ db) = f(a, b) ⊔ f(a, db)`.
pub fn check_lattice_bimorphism<LatA: LatticeEq, LatB: LatticeEq, F: LatticeBimorphism<LatA, LatB>>(
    func: F,
    items_a: &[LatA],
    items_b: &[LatB],
) -> (r: bool)
    requires
        forall|i: int| 0 <= i < items_a@.len() ==> (#[trigger] items_a@[i]).wf(),
        forall|i: int| 0 <= i < items_b@.len() ==> (#[trigger] items_b@[i]).wf(),
    ensures
        r == bimorphism_holds_on(func, items_a@, items_b@),
{
    let ghost f0 = func;
    let mut f = func;
    let na = items_a.len();
    let nb = items_b.len();
    // Morphism in the left argument, fixed right argument.
    let mut k: usize = 0;
    while k < nb
        invariant
            f == f0,
            func == f0,
            na == items_a@.len(),
            nb == items_b@.len(),
            forall|i: int| 0 <= i < items_a@.len() ==> (#[trigger] items_a@[i]).wf(),
            forall|i: int| 0 <= i < items_b@.len() ==> (#[trigger] items_b@[i]).wf(),
            k <= nb,
            forall|i: int, j: int, c: int|
                0 <= i < na && 0 <= j < na && 0 <= c < k ==> #[trigger] left_morphism_at(
                    f0,
                    items_a@[i]@,
                    items_a@[j]@,
                    items_b@[c]@,
                ),
        decreases nb - k,
    {
        let mut i: usize = 0;
        while i < na
            invariant
                f == f0,
                func == f0,
                na == items_a@.len(),
                nb == items_b@.len(),
                forall|i: int| 0 <= i < items_a@.len() ==> (#[trigger] items_a@[i]).wf(),
                forall|i: int| 0 <= i < items_b@.len() ==> (#[trigger] items_b@[i]).wf(),
                k < nb,
                i <= na,
                forall|ii: int, j: int, c: int|
                    0 <= ii < na && 0 <= j < na && 0 <= c < k ==> #[trigger] left_morphism_at(
                        f0,
                        items_a@[ii]@,
                        items_a@[j]@,
                        items_b@[c]@,
                    ),
                forall|ii: int, j: int|
                    0 <= ii < i && 0 <= j < na ==> #[trigger] left_morphism_at(
                        f0,
                        items_a@[ii]@,
                        items_a@[j]@,
                        items_b@[k as int]@,
                    ),
            decreases na - i,
        {
            let mut j: usize = 0;
            while j < na
                invariant
                    f == f0,
                    func == f0,
                    na == items_a@.len(),
                    nb == items_b@.len(),
                    forall|i: int| 0 <= i < items_a@.len() ==> (#[trigger] items_a@[i]).wf(),
                    forall|i: int| 0 <= i < items_b@.len() ==> (#[trigger] items_b@[i]).wf(),
                    k < nb,
                    i < na,
                    j <= na,
                    forall|ii: int, jj: int, c: int|
                        0 <= ii < na && 0 <= jj < na && 0 <= c < k ==> #[trigger] left_morphism_at(
                            f0,
                            items_a@[ii]@,
                            items_a@[jj]@,
                            items_b@[c]@,
                        ),
                    forall|ii: int, jj: int|
                        0 <= ii < i && 0 <= jj < na ==> #[trigger] left_morphism_at(
                            f0,
                            items_a@[ii]@,
                            items_a@[jj]@,
                            items_b@[k as int]@,
                        ),
                    forall|jj: int|
                        0 <= jj < j ==> #[trigger] left_morphism_at(
                            f0,
                            items_a@[i as int]@,
                            items_a@[jj]@,
                            items_b@[k as int]@,
                        ),
                decreases na - j,
            {
                if !check_left(&mut f, &items_a[i], &items_a[j], &items_b[k]) {
                    assert(!left_morphism_at(f0, items_a@[i as int]@, items_a@[j as int]@, items_b@[k as int]@));
                    return false;
                }
                j = j + 1;
            }
            i = i + 1;
        }
        k = k + 1;
    }
    // Fixed left argument, morphism in the right argument.
    let mut i: usize = 0;
    while i < na
        invariant
            f == f0,
            func == f0,
            na == items_a@.len(),
            nb == items_b@.len(),
            forall|i: int| 0 <= i < items_a@.len() ==> (#[trigger] items_a@[i]).wf(),
            forall|i: int| 0 <= i < items_b@.len() ==> (#[trigger] items_b@[i]).wf(),
            forall|ii: int, j: int, c: int|
                0 <= ii < na && 0 <= j < na && 0 <= c < nb ==> #[trigger] left_morphism_at(
                    f0,
                    items_a@[ii]@,
                    items_a@[j]@,
                    items_b@[c]@,
                ),
            i <= na,
            forall|ii: int, j: int, c: int|
                0 <= ii < i && 0 <= j < nb && 0 <= c < nb ==> #[trigger] right_morphism_at(
                    f0,
                    items_a@[ii]@,
                    items_b@[j]@,
                    items_b@[c]@,
                ),
        decreases na - i,
    {
        let mut j: usize = 0;
        while j < nb
            invariant
                f == f0,
                func == f0,
                na == items_a@.len(),
                nb == items_b@.len(),
                forall|i: int| 0 <= i < items_a@.len() ==> (#[trigger] items_a@[i]).wf(),
                forall|i: int| 0 <= i < items_b@.len() ==> (#[trigger] items_b@[i]).wf(),
                i < na,
                j <= nb,
                forall|ii: int, jj: int, c: int|
                    0 <= ii < i && 0 <= jj < nb && 0 <= c < nb ==> #[trigger] right_morphism_at(
                        f0,
                        items_a@[ii]@,
                        items_b@[jj]@,
                        items_b@[c]@,
                    ),
                forall|jj: int, c: int|
                    0 <= jj < j && 0 <= c < nb ==> #[trigger] right_morphism_at(
                        f0,
                        items_a@[i as int]@,
                        items_b@[jj]@,
                        items_b@[c]@,
                    ),
            decreases nb - j,
        {
            let mut c: usize = 0;
            while c < nb
                invariant
                    f == f0,
                    func == f0,
                    na == items_a@.len(),
                    nb == items_b@.len(),
                    forall|i: int| 0 <= i < items_a@.len() ==> (#[trigger] items_a@[i]).wf(),
                    forall|i: int| 0 <= i < items_b@.len() ==> (#[trigger] items_b@[i]).wf(),
                    i < na,
                    j < nb,
                    c <= nb,
                    forall|ii: int, jj: int, cc: int|
                        0 <= ii < i && 0 <= jj < nb && 0 <= cc < nb ==> #[trigger] right_morphism_at(
                            f0,
                            items_a@[ii]@,
                            items_b@[jj]@,
                            items_b@[cc]@,
                        ),
                    forall|jj: int, cc: int|
                        0 <= jj < j && 0 <= cc < nb ==> #[trigger] right_morphism_at(
                            f0,
                            items_a@[i as int]@,
                            items_b@[jj]@,
                            items_b@[cc]@,
                        ),
                    forall|cc: int|
                        0 <= cc < c ==> #[trigger] right_morphism_at(
                            f0,
                            items_a@[i as int]@,
                            items_b@[j as int]@,
                            items_b@[cc]@,
                        ),
                decreases nb - c,
            {
                if !check_right(&mut f, &items_a[i], &items_b[j], &items_b[c]) {
                    assert(!right_morphism_at(f0, items_a@[i as int]@, items_b@[j as int]@, items_b@[c as int]@));
                    return false;
                }
                c = c + 1;
            }
            j = j + 1;
        }
        i = i + 1;
    }
    true
}

} // verus!
