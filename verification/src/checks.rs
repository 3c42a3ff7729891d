//! Checks that a lattice implementation obeys the lattice laws on sample values.
//!
//! Each check returns whether the property held on every tuple of the given items.
//! Its contract states the property exactly, and a companion lemma proves that the
//! property holds for every implementation of the lattice traits, so the checks
//! always return `true`.
use core::cmp::Ordering;
use vstd::prelude::*;
use vstd::std_specs::cmp::{PartialEqSpec, PartialOrdSpec};

use crate::lattice::{
    join_all, lattice_le, lemma_join_all_from, merge_owned, points_of, Atomize, IsBot, IsTop, Lattice, LatticeEq, LatticeOrd,
    Merge, Unmerge,
};
use crate::order::{is_equal, is_greater, is_less, naive_cmp, order_of, partial_cmp, same_order};

verus! {

/// Every item satisfies its representation invariant.
pub open spec fn all_wf<T: Merge>(items: Seq<T>) -> bool {
    forall|i: int| 0 <= i < items.len() ==> #[trigger] items[i].wf()
}

/// `x ⊔ x = x`.
pub open spec fn idempotent_at<T: Merge>(x: T::V) -> bool {
    T::join(x, x) == x
}

/// `x ⊔ y = y ⊔ x`.
pub open spec fn commutes_at<T: Merge>(x: T::V, y: T::V) -> bool {
    T::join(x, y) == T::join(y, x)
}

/// `x ⊔ (y ⊔ z) = (x ⊔ y) ⊔ z`.
pub open spec fn associates_at<T: Merge>(x: T::V, y: T::V, z: T::V) -> bool {
    T::join(x, T::join(y, z)) == T::join(T::join(x, y), z)
}

/// Idempotence, commutativity and associativity on every tuple of `items`.
pub open spec fn lattice_properties_hold<T: Merge>(items: Seq<T>) -> bool {
    &&& forall|i: int| 0 <= i < items.len() ==> #[trigger] idempotent_at::<T>(items[i]@)
    &&& forall|i: int, j: int|
        0 <= i < items.len() && 0 <= j < items.len() ==> #[trigger] commutes_at::<T>(
            items[i]@,
            items[j]@,
        )
    &&& forall|i: int, j: int, k: int|
        0 <= i < items.len() && 0 <= j < items.len() && 0 <= k < items.len()
            ==> #[trigger] associates_at::<T>(items[i]@, items[j]@, items[k]@)
}

/// The lattice laws hold on any values of a lattice type.
pub proof fn lemma_lattice_properties_hold<T: Merge>(items: Seq<T>)
    ensures
        lattice_properties_hold(items),
{
    assert forall|i: int, j: int, k: int|
        0 <= i < items.len() && 0 <= j < items.len() && 0 <= k < items.len()
            implies #[trigger] associates_at::<T>(items[i]@, items[j]@, items[k]@)
            && idempotent_at::<T>(items[i]@) && commutes_at::<T>(items[i]@, items[j]@) by {
        T::lemma_view_is_point(&items[i]);
        T::lemma_view_is_point(&items[j]);
        T::lemma_view_is_point(&items[k]);
        T::lemma_join_laws(items[i]@, items[j]@, items[k]@);
    }
    assert forall|i: int| 0 <= i < items.len() implies #[trigger] idempotent_at::<T>(items[i]@) by {
        T::lemma_view_is_point(&items[i]);
        T::lemma_join_laws(items[i]@, items[i]@, items[i]@);
    }
    assert forall|i: int, j: int|
        0 <= i < items.len() && 0 <= j < items.len() implies #[trigger] commutes_at::<T>(
            items[i]@,
            items[j]@,
        ) by {
        T::lemma_view_is_point(&items[i]);
        T::lemma_view_is_point(&items[j]);
        T::lemma_join_laws(items[i]@, items[j]@, items[j]@);
    }
}

/// `T`'s own `==` gives one answer for all values standing for the same two points.
pub open spec fn eq_by_points<T: Merge + PartialEq>() -> bool {
    forall|a: T, b: T, c: T, d: T|
        a@ == c@ && b@ == d@ ==> #[trigger] a.eq_spec(&b) == #[trigger] c.eq_spec(&d)
}

/// Whether `T`'s own `==` holds between values standing for the points `x` and `y`.
pub open spec fn points_equal<T: Merge + PartialEq>(x: T::V, y: T::V) -> bool {
    exists|a: T, b: T| a@ == x && b@ == y && #[trigger] a.eq_spec(&b)
}

/// `T`'s own `==` follows its specification and depends only on points.
pub open spec fn eq_lawful<T: Merge + PartialEq>() -> bool {
    T::obeys_eq_spec() && eq_by_points::<T>()
}

/// `x ⊔ x == x` by `T`'s own `==`.
pub open spec fn own_idempotent_at<T: Merge + PartialEq>(x: T::V) -> bool {
    points_equal::<T>(T::join(x, x), x)
}

/// `x ⊔ y == y ⊔ x` by `T`'s own `==`.
pub open spec fn own_commutes_at<T: Merge + PartialEq>(x: T::V, y: T::V) -> bool {
    points_equal::<T>(T::join(x, y), T::join(y, x))
}

/// `x ⊔ (y ⊔ z) == (x ⊔ y) ⊔ z` by `T`'s own `==`.
pub open spec fn own_associates_at<T: Merge + PartialEq>(x: T::V, y: T::V, z: T::V) -> bool {
    points_equal::<T>(T::join(x, T::join(y, z)), T::join(T::join(x, y), z))
}

/// Idempotence, commutativity and associativity, compared with `T`'s own `==`, on every
/// tuple of `items`.
pub open spec fn own_lattice_properties_hold<T: Merge + PartialEq>(items: Seq<T>) -> bool {
    &&& forall|i: int| 0 <= i < items.len() ==> #[trigger] own_idempotent_at::<T>(items[i]@)
    &&& forall|i: int, j: int|
        0 <= i < items.len() && 0 <= j < items.len() ==> #[trigger] own_commutes_at::<T>(
            items[i]@,
            items[j]@,
        )
    &&& forall|i: int, j: int, k: int|
        0 <= i < items.len() && 0 <= j < items.len() && 0 <= k < items.len()
            ==> #[trigger] own_associates_at::<T>(items[i]@, items[j]@, items[k]@)
}

/// Under a lawful `==`, comparing two values compares their points.
proof fn lemma_eq_is_points_equal<T: Merge + PartialEq>(a: T, b: T)
    requires
        eq_lawful::<T>(),
    ensures
        a.eq_spec(&b) == points_equal::<T>(a@, b@),
{
    if points_equal::<T>(a@, b@) {
        let (c, d) = choose|c: T, d: T| c@ == a@ && d@ == b@ && #[trigger] c.eq_spec(&d);
        assert(c.eq_spec(&d) == a.eq_spec(&b));
    }
}

fn check_idempotent<T: LatticeEq + PartialEq>(x: &T) -> (r: bool)
    requires
        x.wf(),
    ensures
        eq_lawful::<T>() ==> r == own_idempotent_at::<T>(x@),
{
    proof {
        T::lemma_wf_mergeable(x);
    }
    let m = merge_owned(x.clone_point(), x.clone_point());
    let r = m.eq(x);
    proof {
        if eq_lawful::<T>() {
            lemma_eq_is_points_equal(m, *x);
        }
    }
    r
}

fn check_commutes<T: LatticeEq + PartialEq>(x: &T, y: &T) -> (r: bool)
    requires
        x.wf(),
        y.wf(),
    ensures
        eq_lawful::<T>() ==> r == own_commutes_at::<T>(x@, y@),
{
    proof {
        T::lemma_wf_mergeable(x);
        T::lemma_wf_mergeable(y);
    }
    let xy = merge_owned(x.clone_point(), y.clone_point());
    let yx = merge_owned(y.clone_point(), x.clone_point());
    let r = xy.eq(&yx);
    proof {
        if eq_lawful::<T>() {
            lemma_eq_is_points_equal(xy, yx);
        }
    }
    r
}

fn check_associates<T: LatticeEq + PartialEq>(x: &T, y: &T, z: &T) -> (r: bool)
    requires
        x.wf(),
        y.wf(),
        z.wf(),
    ensures
        eq_lawful::<T>() ==> r == own_associates_at::<T>(x@, y@, z@),
{
    proof {
        T::lemma_wf_mergeable(x);
        T::lemma_wf_mergeable(y);
        T::lemma_wf_mergeable(z);
    }
    let yz = merge_owned(y.clone_point(), z.clone_point());
    proof {
        T::lemma_wf_mergeable(&yz);
    }
    let left = merge_owned(x.clone_point(), yz);
    let xy = merge_owned(x.clone_point(), y.clone_point());
    let right = merge_owned(xy, z.clone_point());
    let r = left.eq(&right);
    proof {
        if eq_lawful::<T>() {
            lemma_eq_is_points_equal(left, right);
        }
    }
    r
}

/// Checks lattice idempotence, commutativity and associativity on every tuple of `items`,
/// comparing merge results with `T`'s own `==`.
pub fn check_lattice_properties<T: LatticeEq + PartialEq>(items: &[T]) -> (r: bool)
    requires
        all_wf(items@),
    ensures
        eq_lawful::<T>() ==> r == own_lattice_properties_hold(items@),
{
    let n = items.len();
    let mut i: usize = 0;
    while i < n
        invariant
            n == items@.len(),
            all_wf(items@),
            i <= n,
            eq_lawful::<T>() ==> forall|a: int| 0 <= a < i ==> #[trigger] own_idempotent_at::<T>(items@[a]@),
        decreases n - i,
    {
        if !check_idempotent(&items[i]) {
            return false;
        }
        i = i + 1;
    }
    let mut i: usize = 0;
    while i < n
        invariant
            n == items@.len(),
            all_wf(items@),
            i <= n,
            eq_lawful::<T>() ==> forall|a: int, b: int|
                0 <= a < i && 0 <= b < n ==> #[trigger] own_commutes_at::<T>(items@[a]@, items@[b]@),
        decreases n - i,
    {
        let mut j: usize = 0;
        while j < n
            invariant
                n == items@.len(),
                all_wf(items@),
                i < n,
                j <= n,
                eq_lawful::<T>() ==> forall|a: int, b: int|
                    0 <= a < i && 0 <= b < n ==> #[trigger] own_commutes_at::<T>(items@[a]@, items@[b]@),
                eq_lawful::<T>() ==> forall|b: int| 0 <= b < j ==> #[trigger] own_commutes_at::<T>(items@[i as int]@, items@[b]@),
            decreases n - j,
        {
            if !check_commutes(&items[i], &items[j]) {
                return false;
            }
            j = j + 1;
        }
        i = i + 1;
    }
    let mut i: usize = 0;
    while i < n
        invariant
            n == items@.len(),
            all_wf(items@),
            i <= n,
            eq_lawful::<T>() ==> forall|a: int, b: int, c: int|
                0 <= a < i && 0 <= b < n && 0 <= c < n ==> #[trigger] own_associates_at::<T>(
                    items@[a]@,
                    items@[b]@,
                    items@[c]@,
                ),
        decreases n - i,
    {
        let mut j: usize = 0;
        while j < n
            invariant
                n == items@.len(),
                all_wf(items@),
                i < n,
                j <= n,
                eq_lawful::<T>() ==> forall|a: int, b: int, c: int|
                    0 <= a < i && 0 <= b < n && 0 <= c < n ==> #[trigger] own_associates_at::<T>(
                        items@[a]@,
                        items@[b]@,
                        items@[c]@,
                    ),
                eq_lawful::<T>() ==> forall|b: int, c: int|
                    0 <= b < j && 0 <= c < n ==> #[trigger] own_associates_at::<T>(
                        items@[i as int]@,
                        items@[b]@,
                        items@[c]@,
                    ),
            decreases n - j,
        {
            let mut k: usize = 0;
            while k < n
                invariant
                    n == items@.len(),
                    all_wf(items@),
                    i < n,
                    j < n,
                    k <= n,
                    eq_lawful::<T>() ==> forall|a: int, b: int, c: int|
                        0 <= a < i && 0 <= b < n && 0 <= c < n ==> #[trigger] own_associates_at::<T>(
                            items@[a]@,
                            items@[b]@,
                            items@[c]@,
                        ),
                    eq_lawful::<T>() ==> forall|b: int, c: int|
                        0 <= b < j && 0 <= c < n ==> #[trigger] own_associates_at::<T>(
                            items@[i as int]@,
                            items@[b]@,
                            items@[c]@,
                        ),
                    eq_lawful::<T>() ==> forall|c: int|
                        0 <= c < k ==> #[trigger] own_associates_at::<T>(
                            items@[i as int]@,
                            items@[j as int]@,
                            items@[c]@,
                        ),
                decreases n - k,
            {
                if !check_associates(&items[i], &items[j], &items[k]) {
                    return false;
                }
                k = k + 1;
            }
            j = j + 1;
        }
        i = i + 1;
    }
    true
}


/// `T`'s own `partial_cmp` follows its specification.
pub open spec fn order_obeyed<T: PartialOrd>() -> bool {
    T::obeys_partial_cmp_spec()
}

/// `T`'s own `partial_cmp` of `a` and `b` is the order derived from `merge`.
pub open spec fn order_agrees_at<T: Merge + PartialOrd>(a: T, b: T) -> bool {
    a.partial_cmp_spec(&b) == order_of::<T>(a@, b@)
}

/// `T`'s own `partial_cmp` agrees with the order derived from `merge` on every ordered pair
/// of `items`.
pub open spec fn order_agrees<T: Merge + PartialOrd>(items: Seq<T>) -> bool {
    forall|i: int, j: int|
        0 <= i < items.len() && 0 <= j < items.len() ==> #[trigger] order_agrees_at::<T>(
            items[i],
            items[j],
        )
}

fn check_order_agrees_at<T: LatticeEq + PartialOrd>(a: &T, b: &T) -> (r: bool)
    requires
        a.wf(),
        b.wf(),
    ensures
        order_obeyed::<T>() ==> r == order_agrees_at::<T>(*a, *b),
{
    same_order(naive_cmp(a, b), a.partial_cmp(b))
}

/// Checks that `T`'s own `partial_cmp` agrees with the order derived from `merge` (merging
/// `a` into `b` changes nothing exactly when `a <= b`) on every ordered pair of `items`.
pub fn check_lattice_ord<T: LatticeEq + PartialOrd>(items: &[T]) -> (r: bool)
    requires
        all_wf(items@),
    ensures
        order_obeyed::<T>() ==> r == order_agrees(items@),
{
    let n = items.len();
    let mut i: usize = 0;
    while i < n
        invariant
            n == items@.len(),
            all_wf(items@),
            i <= n,
            order_obeyed::<T>() ==> forall|a: int, b: int|
                0 <= a < i && 0 <= b < n ==> #[trigger] order_agrees_at::<T>(items@[a], items@[b]),
        decreases n - i,
    {
        let mut j: usize = 0;
        while j < n
            invariant
                n == items@.len(),
                all_wf(items@),
                i < n,
                j <= n,
                order_obeyed::<T>() ==> forall|a: int, b: int|
                    0 <= a < i && 0 <= b < n ==> #[trigger] order_agrees_at::<T>(items@[a], items@[b]),
                order_obeyed::<T>() ==> forall|b: int|
                    0 <= b < j ==> #[trigger] order_agrees_at::<T>(items@[i as int], items@[b]),
            decreases n - j,
        {
            if !check_order_agrees_at(&items[i], &items[j]) {
                return false;
            }
            j = j + 1;
        }
        i = i + 1;
    }
    true
}

/// Equality is symmetric, agrees with an `Equal` comparison, and `a < b` exactly when `b > a`.
pub open spec fn order_pair_ok<T: Merge>(a: T::V, b: T::V) -> bool {
    &&& (a == b) == (b == a)
    &&& (a == b) == (order_of::<T>(a, b) == Some(Ordering::Equal))
    &&& (order_of::<T>(a, b) == Some(Ordering::Less)) == (order_of::<T>(b, a) == Some(
        Ordering::Greater,
    ))
}

/// Equality, `<` and `>` are transitive.
pub open spec fn order_triple_ok<T: Merge>(a: T::V, b: T::V, c: T::V) -> bool {
    &&& (a == b && b == c) ==> a == c
    &&& (order_of::<T>(a, b) == Some(Ordering::Less) && order_of::<T>(b, c) == Some(Ordering::Less))
        ==> order_of::<T>(a, c) == Some(Ordering::Less)
    &&& (order_of::<T>(a, b) == Some(Ordering::Greater) && order_of::<T>(b, c) == Some(
        Ordering::Greater,
    )) ==> order_of::<T>(a, c) == Some(Ordering::Greater)
}

/// The partial-order properties on every pair and triple of `items`.
pub open spec fn partial_ord_properties_hold<T: Merge>(items: Seq<T>) -> bool {
    &&& forall|i: int, j: int|
        0 <= i < items.len() && 0 <= j < items.len() ==> #[trigger] order_pair_ok::<T>(
            items[i]@,
            items[j]@,
        )
    &&& forall|i: int, j: int, k: int|
        0 <= i < items.len() && 0 <= j < items.len() && 0 <= k < items.len()
            ==> #[trigger] order_triple_ok::<T>(items[i]@, items[j]@, items[k]@)
}

/// The lattice order of any lattice type is a partial order.
pub proof fn lemma_partial_ord_properties_hold<T: Merge>(items: Seq<T>)
    ensures
        partial_ord_properties_hold(items),
{
    assert forall|i: int, j: int|
        0 <= i < items.len() && 0 <= j < items.len() implies #[trigger] order_pair_ok::<T>(
            items[i]@,
            items[j]@,
        ) by {
        T::lemma_view_is_point(&items[i]);
        T::lemma_view_is_point(&items[j]);
        T::lemma_join_laws(items[i]@, items[j]@, items[j]@);
        T::lemma_join_laws(items[i]@, items[i]@, items[i]@);
    }
    assert forall|i: int, j: int, k: int|
        0 <= i < items.len() && 0 <= j < items.len() && 0 <= k < items.len()
            implies #[trigger] order_triple_ok::<T>(items[i]@, items[j]@, items[k]@) by {
        let a = items[i]@;
        let b = items[j]@;
        let c = items[k]@;
        T::lemma_view_is_point(&items[i]);
        T::lemma_view_is_point(&items[j]);
        T::lemma_view_is_point(&items[k]);
        lemma_le_transitive::<T>(a, b, c);
        lemma_le_transitive::<T>(c, b, a);
        lemma_le_transitive::<T>(c, a, b);
        lemma_le_transitive::<T>(b, c, a);
        lemma_le_transitive::<T>(a, c, b);
        lemma_le_transitive::<T>(b, a, c);
    }
}

/// The lattice order is transitive.
pub proof fn lemma_le_transitive<T: Merge>(a: T::V, b: T::V, c: T::V)
    requires
        T::is_point(a),
        T::is_point(b),
        T::is_point(c),
    ensures
        lattice_le::<T>(a, b) && lattice_le::<T>(b, c) ==> lattice_le::<T>(a, c),
        lattice_le::<T>(a, b) && lattice_le::<T>(b, a) ==> a == b,
{
    T::lemma_join_laws(a, b, c);
}

/// `T`'s own `==` and `partial_cmp` follow their specifications.
pub open spec fn own_order_lawful<T: PartialOrd>() -> bool {
    T::obeys_eq_spec() && T::obeys_partial_cmp_spec()
}

/// `a == a` by `T`'s own `==`.
pub open spec fn own_reflexive_at<T: PartialOrd>(a: T) -> bool {
    a.eq_spec(&a)
}

/// By `T`'s own operations: `==` is symmetric and holds exactly when `partial_cmp` gives
/// `Equal`; `<=` is `<` or `==`; `>=` is `>` or `==`; and `a < b` exactly when `b > a`.
pub open spec fn own_pair_ok<T: PartialOrd>(a: T, b: T) -> bool {
    &&& a.eq_spec(&b) == b.eq_spec(&a)
    &&& a.eq_spec(&b) == (a.partial_cmp_spec(&b) == Some(Ordering::Equal))
    &&& (a.partial_cmp_spec(&b) matches Some(Ordering::Less | Ordering::Equal)) == (a.partial_cmp_spec(
        &b,
    ) == Some(Ordering::Less) || a.eq_spec(&b))
    &&& (a.partial_cmp_spec(&b) matches Some(Ordering::Greater | Ordering::Equal)) == (
    a.partial_cmp_spec(&b) == Some(Ordering::Greater) || a.eq_spec(&b))
    &&& (a.partial_cmp_spec(&b) == Some(Ordering::Less)) == (b.partial_cmp_spec(&a) == Some(
        Ordering::Greater,
    ))
}

/// By `T`'s own operations, `==`, `<` and `>` are transitive.
pub open spec fn own_triple_ok<T: PartialOrd>(a: T, b: T, c: T) -> bool {
    &&& (a.eq_spec(&b) && b.eq_spec(&c)) ==> a.eq_spec(&c)
    &&& (a.partial_cmp_spec(&b) == Some(Ordering::Less) && b.partial_cmp_spec(&c) == Some(
        Ordering::Less,
    )) ==> a.partial_cmp_spec(&c) == Some(Ordering::Less)
    &&& (a.partial_cmp_spec(&b) == Some(Ordering::Greater) && b.partial_cmp_spec(&c) == Some(
        Ordering::Greater,
    )) ==> a.partial_cmp_spec(&c) == Some(Ordering::Greater)
}

/// The partial-order laws of `T`'s own comparison on every item, pair and triple of `items`.
pub open spec fn own_partial_ord_properties_hold<T: PartialOrd>(items: Seq<T>) -> bool {
    &&& forall|i: int| 0 <= i < items.len() ==> #[trigger] own_reflexive_at::<T>(items[i])
    &&& forall|i: int, j: int|
        0 <= i < items.len() && 0 <= j < items.len() ==> #[trigger] own_pair_ok::<T>(items[i], items[j])
    &&& forall|i: int, j: int, k: int|
        0 <= i < items.len() && 0 <= j < items.len() && 0 <= k < items.len()
            ==> #[trigger] own_triple_ok::<T>(items[i], items[j], items[k])
}

fn check_own_reflexive<T: PartialOrd>(a: &T) -> (r: bool)
    ensures
        own_order_lawful::<T>() ==> r == own_reflexive_at::<T>(*a),
{
    a.eq(a)
}

fn check_own_pair<T: PartialOrd>(a: &T, b: &T) -> (r: bool)
    ensures
        own_order_lawful::<T>() ==> r == own_pair_ok::<T>(*a, *b),
{
    let eq_ab = a.eq(b);
    let eq_ba = b.eq(a);
    let ne_ab = a.ne(b);
    let c_ab = a.partial_cmp(b);
    let c_ba = b.partial_cmp(a);
    let lt = a.lt(b);
    let gt = a.gt(b);
    let le = a.le(b);
    let ge = a.ge(b);
    eq_ab == eq_ba && eq_ab == is_equal(c_ab) && lt == is_less(c_ab) && gt == is_greater(c_ab)
        && le == (lt || eq_ab) && ge == (gt || eq_ab) && ne_ab == !eq_ab && is_less(c_ab)
        == is_greater(c_ba)
}

fn check_own_triple<T: PartialOrd>(a: &T, b: &T, c: &T) -> (r: bool)
    ensures
        own_order_lawful::<T>() ==> r == own_triple_ok::<T>(*a, *b, *c),
{
    let eq_ok = !(a.eq(b) && b.eq(c)) || a.eq(c);
    let lt_ok = !(a.lt(b) && b.lt(c)) || a.lt(c);
    let gt_ok = !(a.gt(b) && b.gt(c)) || a.gt(c);
    eq_ok && lt_ok && gt_ok
}

/// Checks that `T`'s own `==`, `!=`, `partial_cmp`, `<`, `<=`, `>` and `>=` behave as a
/// partial order on every item, pair and triple of `items`.
pub fn check_partial_ord_properties<T: PartialOrd>(items: &[T]) -> (r: bool)
    ensures
        own_order_lawful::<T>() ==> r == own_partial_ord_properties_hold(items@),
{
    let n = items.len();
    let mut i: usize = 0;
    while i < n
        invariant
            n == items@.len(),
            i <= n,
            own_order_lawful::<T>() ==> forall|a: int| 0 <= a < i ==> #[trigger] own_reflexive_at::<T>(items@[a]),
        decreases n - i,
    {
        if !check_own_reflexive(&items[i]) {
            return false;
        }
        i = i + 1;
    }
    let mut i: usize = 0;
    while i < n
        invariant
            n == items@.len(),
            i <= n,
            own_order_lawful::<T>() ==> forall|a: int| 0 <= a < n ==> #[trigger] own_reflexive_at::<T>(items@[a]),
            own_order_lawful::<T>() ==> forall|a: int, b: int|
                0 <= a < i && 0 <= b < n ==> #[trigger] own_pair_ok::<T>(items@[a], items@[b]),
        decreases n - i,
    {
        let mut j: usize = 0;
        while j < n
            invariant
                n == items@.len(),
                    i < n,
                j <= n,
                own_order_lawful::<T>() ==> forall|a: int, b: int|
                    0 <= a < i && 0 <= b < n ==> #[trigger] own_pair_ok::<T>(items@[a], items@[b]),
                own_order_lawful::<T>() ==> forall|b: int| 0 <= b < j ==> #[trigger] own_pair_ok::<T>(items@[i as int], items@[b]),
            decreases n - j,
        {
            if !check_own_pair(&items[i], &items[j]) {
                return false;
            }
            j = j + 1;
        }
        i = i + 1;
    }
    let mut i: usize = 0;
    while i < n
        invariant
            n == items@.len(),
            i <= n,
            own_order_lawful::<T>() ==> forall|a: int, b: int|
                0 <= a < n && 0 <= b < n ==> #[trigger] own_pair_ok::<T>(items@[a], items@[b]),
            own_order_lawful::<T>() ==> forall|a: int, b: int, c: int|
                0 <= a < i && 0 <= b < n && 0 <= c < n ==> #[trigger] own_triple_ok::<T>(
                    items@[a],
                    items@[b],
                    items@[c],
                ),
        decreases n - i,
    {
        let mut j: usize = 0;
        while j < n
            invariant
                n == items@.len(),
                    i < n,
                j <= n,
                own_order_lawful::<T>() ==> forall|a: int, b: int|
                    0 <= a < n && 0 <= b < n ==> #[trigger] own_pair_ok::<T>(items@[a], items@[b]),
                own_order_lawful::<T>() ==> forall|a: int, b: int, c: int|
                    0 <= a < i && 0 <= b < n && 0 <= c < n ==> #[trigger] own_triple_ok::<T>(
                        items@[a],
                        items@[b],
                        items@[c],
                    ),
                own_order_lawful::<T>() ==> forall|b: int, c: int|
                    0 <= b < j && 0 <= c < n ==> #[trigger] own_triple_ok::<T>(
                        items@[i as int],
                        items@[b],
                        items@[c],
                    ),
            decreases n - j,
        {
            let mut k: usize = 0;
            while k < n
                invariant
                    n == items@.len(),
                            i < n,
                    j < n,
                    k <= n,
                    own_order_lawful::<T>() ==> forall|a: int, b: int|
                        0 <= a < n && 0 <= b < n ==> #[trigger] own_pair_ok::<T>(items@[a], items@[b]),
                    own_order_lawful::<T>() ==> forall|a: int, b: int, c: int|
                        0 <= a < i && 0 <= b < n && 0 <= c < n ==> #[trigger] own_triple_ok::<T>(
                            items@[a],
                            items@[b],
                            items@[c],
                        ),
                    own_order_lawful::<T>() ==> forall|b: int, c: int|
                        0 <= b < j && 0 <= c < n ==> #[trigger] own_triple_ok::<T>(
                            items@[i as int],
                            items@[b],
                            items@[c],
                        ),
                    own_order_lawful::<T>() ==> forall|c: int|
                        0 <= c < k ==> #[trigger] own_triple_ok::<T>(
                            items@[i as int],
                            items@[j as int],
                            items@[c],
                        ),
                decreases n - k,
            {
                if !check_own_triple(&items[i], &items[j], &items[k]) {
                    return false;
                }
                k = k + 1;
            }
            j = j + 1;
        }
        i = i + 1;
    }
    true
}

/// If some item is the bottom, it lies below every item.
pub open spec fn bot_is_least<T: IsBot>(items: Seq<T>) -> bool {
    (exists|b: int| 0 <= b < items.len() && #[trigger] items[b]@ == T::bot_point()) ==> forall|
        x: int,
    |
        0 <= x < items.len() ==> #[trigger] lattice_le::<T>(T::bot_point(), items[x]@)
}

/// The bottom of any lattice type lies below every value.
pub proof fn lemma_bot_is_least<T: IsBot>(items: Seq<T>)
    ensures
        bot_is_least(items),
{
    assert forall|x: int| 0 <= x < items.len() implies #[trigger] lattice_le::<T>(
        T::bot_point(),
        items[x]@,
    ) by {
        T::lemma_view_is_point(&items[x]);
        T::lemma_bot_least(items[x]@);
    }
}

/// Whether `b` is the first item of `items` that is bottom.
pub open spec fn is_first_bot<T: IsBot>(items: Seq<T>, b: int) -> bool {
    &&& 0 <= b < items.len()
    &&& items[b]@ == T::bot_point()
    &&& forall|c: int| 0 <= c < b ==> items[c]@ != T::bot_point()
}

/// By `T`'s own comparison `bot <= x`, and `bot == x` exactly when `x` is bottom.
pub open spec fn own_bot_pair_ok<T: IsBot + PartialOrd>(bot: T, x: T) -> bool {
    &&& bot.partial_cmp_spec(&x) matches Some(Ordering::Less | Ordering::Equal)
    &&& bot.eq_spec(&x) == (x@ == T::bot_point())
}

/// The first bottom item of `items`, if any, is below every item by `T`'s own comparison,
/// and equal by `T`'s own `==` exactly to the bottom items.
pub open spec fn own_bot_is_least<T: IsBot + PartialOrd>(items: Seq<T>) -> bool {
    forall|b: int, x: int|
        #[trigger] is_first_bot(items, b) && 0 <= x < items.len() ==> #[trigger] own_bot_pair_ok::<T>(
            items[b],
            items[x],
        )
}

fn check_bot_pair<T: IsBot + PartialOrd>(bot: &T, x: &T) -> (r: bool)
    ensures
        own_order_lawful::<T>() ==> r == own_bot_pair_ok::<T>(*bot, *x),
{
    bot.le(x) && bot.eq(x) == x.is_bot()
}

/// Checks that the first bottom item found (if any) lies below every item and equals
/// exactly the items that are bottom, by `T`'s own `<=` and `==`.
pub fn check_lattice_is_bot<T: IsBot + PartialOrd>(items: &[T]) -> (r: bool)
    ensures
        own_order_lawful::<T>() ==> r == own_bot_is_least(items@),
{
    let n = items.len();
    let mut b: usize = 0;
    while b < n && !items[b].is_bot()
        invariant
            n == items@.len(),
            b <= n,
            forall|c: int| 0 <= c < b ==> #[trigger] items@[c]@ != T::bot_point(),
        decreases n - b,
    {
        b = b + 1;
    }
    if b == n {
        return true;
    }
    assert(is_first_bot(items@, b as int));
    let mut x: usize = 0;
    while x < n
        invariant
            n == items@.len(),
            b < n,
            is_first_bot(items@, b as int),
            x <= n,
            own_order_lawful::<T>() ==> forall|c: int|
                0 <= c < x ==> #[trigger] own_bot_pair_ok::<T>(items@[b as int], items@[c]),
        decreases n - x,
    {
        if !check_bot_pair(&items[b], &items[x]) {
            return false;
        }
        x = x + 1;
    }
    proof {
        assert forall|b2: int, x2: int|
            #[trigger] is_first_bot(items@, b2) && 0 <= x2 < items@.len() implies #[trigger] own_bot_pair_ok::<T>(
            items@[b2],
            items@[x2],
        ) || !own_order_lawful::<T>() by {
            if b2 < b {
                assert(items@[b2]@ != T::bot_point());
            } else if b2 > b {
                assert(items@[b as int]@ != T::bot_point());
            }
        }
    }
    true
}

/// Every top item lies above every item.
pub open spec fn top_is_greatest<T: IsTop>(items: Seq<T>) -> bool {
    forall|t: int, x: int|
        0 <= t < items.len() && 0 <= x < items.len() && T::is_top_point(items[t]@)
            ==> #[trigger] lattice_le::<T>(items[x]@, items[t]@)
}

/// A top of any lattice type lies above every value.
pub proof fn lemma_top_is_greatest<T: IsTop>(items: Seq<T>)
    ensures
        top_is_greatest(items),
{
    assert forall|t: int, x: int|
        0 <= t < items.len() && 0 <= x < items.len() && T::is_top_point(
            items[t]@,
        ) implies #[trigger] lattice_le::<T>(items[x]@, items[t]@) by {
        T::lemma_view_is_point(&items[x]);
        T::lemma_top_greatest(items[t]@, items[x]@);
    }
}

/// Whether `t` is the first item of `items` that is top.
pub open spec fn is_first_top<T: IsTop>(items: Seq<T>, t: int) -> bool {
    &&& 0 <= t < items.len()
    &&& T::is_top_point(items[t]@)
    &&& forall|c: int| 0 <= c < t ==> !T::is_top_point(items[c]@)
}

/// By `T`'s own comparison `x <= top`, and `top == x` exactly when `x` is top.
pub open spec fn own_top_pair_ok<T: IsTop + PartialOrd>(top: T, x: T) -> bool {
    &&& x.partial_cmp_spec(&top) matches Some(Ordering::Less | Ordering::Equal)
    &&& top.eq_spec(&x) == T::is_top_point(x@)
}

/// The first top item of `items`, if any, is above every item by `T`'s own comparison, and
/// equal by `T`'s own `==` exactly to the top items.
pub open spec fn own_top_is_greatest<T: IsTop + PartialOrd>(items: Seq<T>) -> bool {
    forall|t: int, x: int|
        #[trigger] is_first_top(items, t) && 0 <= x < items.len() ==> #[trigger] own_top_pair_ok::<T>(
            items[t],
            items[x],
        )
}

fn check_top_pair<T: IsTop + PartialOrd>(top: &T, x: &T) -> (r: bool)
    ensures
        own_order_lawful::<T>() ==> r == own_top_pair_ok::<T>(*top, *x),
{
    x.le(top) && top.eq(x) == x.is_top()
}

/// Checks that the first top item found (if any) lies above every item and equals exactly
/// the items that are top, by `T`'s own `<=` and `==`.
pub fn check_lattice_is_top<T: IsTop + PartialOrd>(items: &[T]) -> (r: bool)
    ensures
        own_order_lawful::<T>() ==> r == own_top_is_greatest(items@),
{
    let n = items.len();
    let mut t: usize = 0;
    while t < n && !items[t].is_top()
        invariant
            n == items@.len(),
            t <= n,
            forall|c: int| 0 <= c < t ==> !T::is_top_point(#[trigger] items@[c]@),
        decreases n - t,
    {
        t = t + 1;
    }
    if t == n {
        return true;
    }
    assert(is_first_top(items@, t as int));
    let mut x: usize = 0;
    while x < n
        invariant
            n == items@.len(),
            t < n,
            is_first_top(items@, t as int),
            x <= n,
            own_order_lawful::<T>() ==> forall|c: int|
                0 <= c < x ==> #[trigger] own_top_pair_ok::<T>(items@[t as int], items@[c]),
        decreases n - x,
    {
        if !check_top_pair(&items[t], &items[x]) {
            return false;
        }
        x = x + 1;
    }
    proof {
        assert forall|t2: int, x2: int|
            #[trigger] is_first_top(items@, t2) && 0 <= x2 < items@.len() implies #[trigger] own_top_pair_ok::<T>(
            items@[t2],
            items@[x2],
        ) || !own_order_lawful::<T>() by {
            if t2 < t {
                assert(!T::is_top_point(items@[t2]@));
            } else if t2 > t {
                assert(!T::is_top_point(items@[t as int]@));
            }
        }
    }
    true
}

/// Checks that `T::default()` is the bottom.
pub fn check_lattice_default_is_bot<T: IsBot + Default>() -> (r: bool)
    ensures
        exists|d: T| call_ensures(T::default, (), d) && r == (d@ == T::bot_point()),
{
    let d = T::default();
    d.is_bot()
}

/// What removing `y` from `x` must give: with `z = x - y` and `w = z ⊔ y`,
/// - when `x > y`: if `y` is bottom, nothing changes (`z = x`, `w = z`); otherwise `z` changes,
///   `z < x`, `z` is incomparable with `y`, and merging `y` back changes `z`; either way `w = x`;
/// - when `x <= y`: if `x` is bottom nothing changes, otherwise `z` changes and is bottom;
/// - when `x` and `y` are incomparable: `z` changes and yet equals `x`.
pub open spec fn unmerge_pair_ok<T: Unmerge + IsBot>(x: T::V, y: T::V) -> bool {
    let z = T::unjoin(x, y);
    let w = T::join(z, y);
    let changed_unmerge = z != x;
    let changed_merge = w != z;
    match order_of::<T>(x, y) {
        Some(Ordering::Greater) => {
            &&& if y == T::bot_point() {
                !changed_unmerge && z == x && !changed_merge
            } else {
                &&& changed_unmerge
                &&& order_of::<T>(z, x) == Some(Ordering::Less)
                &&& order_of::<T>(z, y) is None
                &&& changed_merge
            }
            &&& x == w
        },
        Some(Ordering::Equal) | Some(Ordering::Less) => {
            if x == T::bot_point() {
                !changed_unmerge
            } else {
                changed_unmerge && z == T::bot_point()
            }
        },
        None => changed_unmerge && x == z,
    }
}

/// The unmerge expectations on every ordered pair of `items`.
pub open spec fn unmerge_properties_hold<T: Unmerge + IsBot>(items: Seq<T>) -> bool {
    forall|i: int, j: int|
        0 <= i < items.len() && 0 <= j < items.len() ==> #[trigger] unmerge_pair_ok::<T>(
            items[i]@,
            items[j]@,
        )
}

fn check_unmerge_pair<T: Unmerge + IsBot + LatticeOrd>(x: &T, y: &T) -> (r: bool)
    requires
        x.wf(),
        y.wf(),
    ensures
        r == unmerge_pair_ok::<T>(x@, y@),
{
    let mut z = x.clone_point();
    let changed_unmerge = z.unmerge(y);
    let mut w = z.clone_point();
    let changed_merge = w.merge(y.clone_point());
    let ord = partial_cmp(x, y);
    if is_greater(ord) {
        let first = if y.is_bot() {
            !changed_unmerge && z.lattice_eq(x) && !changed_merge
        } else {
            changed_unmerge && is_less(partial_cmp(&z, x)) && partial_cmp(&z, y).is_none()
                && changed_merge
        };
        first && x.lattice_eq(&w)
    } else if ord.is_some() {
        if x.is_bot() {
            !changed_unmerge
        } else {
            changed_unmerge && z.is_bot()
        }
    } else {
        changed_unmerge && x.lattice_eq(&z)
    }
}

/// Checks the unmerge expectations on every ordered pair of `items`.
pub fn check_unmerge<T: Unmerge + IsBot + LatticeOrd>(items: &[T]) -> (r: bool)
    requires
        all_wf(items@),
    ensures
        r == unmerge_properties_hold(items@),
{
    let n = items.len();
    let mut i: usize = 0;
    while i < n
        invariant
            n == items@.len(),
            all_wf(items@),
            i <= n,
            forall|a: int, b: int|
                0 <= a < i && 0 <= b < n ==> #[trigger] unmerge_pair_ok::<T>(items@[a]@, items@[b]@),
        decreases n - i,
    {
        let mut j: usize = 0;
        while j < n
            invariant
                n == items@.len(),
                all_wf(items@),
                i < n,
                j <= n,
                forall|a: int, b: int|
                    0 <= a < i && 0 <= b < n ==> #[trigger] unmerge_pair_ok::<T>(items@[a]@, items@[b]@),
                forall|b: int| 0 <= b < j ==> #[trigger] unmerge_pair_ok::<T>(items@[i as int]@, items@[b]@),
            decreases n - j,
        {
            if !check_unmerge_pair(&items[i], &items[j]) {
                return false;
            }
            j = j + 1;
        }
        i = i + 1;
    }
    true
}

/// Whether some value that `T::default()` may return, joined with `v`, gives `v`.
pub open spec fn default_below<T: Merge + Default>(v: T::V) -> bool {
    exists|d: T| call_ensures(T::default, (), d) && #[trigger] T::join(d@, v) == v
}

/// Checks, for each item, that its atoms are empty exactly when it is bottom, that no atom
/// is bottom, and that merging the atoms into a fresh `T::default()` gives the item back.
/// Given the contract of `atomize`, the last check passes exactly when the default value
/// joined with the item is the item, so it fails for a `Default` above some item.
pub fn check_atomize_each<T: Atomize + LatticeEq + Default>(items: &[T]) -> (r: bool)
    requires
        all_wf(items@),
        forall|d: T| call_ensures(T::default, (), d) ==> d.wf(),
    ensures
        r ==> forall|i: int| 0 <= i < items@.len() ==> default_below::<T>(#[trigger] items@[i]@),
        (forall|d: T, i: int|
            call_ensures(T::default, (), d) && 0 <= i < items@.len() ==> #[trigger] T::join(
                d@,
                items@[i]@,
            ) == items@[i]@) ==> r,
{
    let n = items.len();
    let mut i: usize = 0;
    while i < n
        invariant
            n == items@.len(),
            all_wf(items@),
            forall|d: T| call_ensures(T::default, (), d) ==> d.wf(),
            i <= n,
            forall|j: int| 0 <= j < i ==> default_below::<T>(#[trigger] items@[j]@),
        decreases n - i,
    {
        let item = &items[i];
        let mut reformed = T::default();
        let ghost start = reformed@;
        let ghost d0 = reformed;
        let atoms = item.clone_point().atomize();
        if (atoms.len() == 0) != item.is_bot() {
            return false;
        }
        let mut k: usize = 0;
        while k < atoms.len()
            invariant
                k <= atoms@.len(),
                reformed.wf(),
                forall|a: int| 0 <= a < atoms@.len() ==> (#[trigger] atoms@[a]).wf(),
                forall|a: int| 0 <= a < atoms@.len() ==> (#[trigger] atoms@[a])@ != T::bot_point(),
                reformed@ == join_all::<T>(start, points_of(atoms@.take(k as int))),
                forall|j: int| 0 <= j < i ==> default_below::<T>(#[trigger] items@[j]@),
            decreases atoms@.len() - k,
        {
            if atoms[k].is_bot() {
                return false;
            }
            proof {
                T::lemma_wf_mergeable(&atoms@[k as int]);
                let p = points_of(atoms@.take(k + 1));
                assert(p.drop_last() == points_of(atoms@.take(k as int)));
                assert(p.last() == atoms@[k as int]@);
            }
            reformed.merge(atoms[k].clone_point());
            k = k + 1;
        }
        proof {
            assert(atoms@.take(atoms@.len() as int) == atoms@);
            let pts = points_of(atoms@);
            T::lemma_view_is_point(&d0);
            assert forall|a: int| 0 <= a < pts.len() implies T::is_point(#[trigger] pts[a]) by {
                T::lemma_view_is_point(&atoms@[a]);
            }
            lemma_join_all_from::<T>(start, pts);
            assert(reformed@ == T::join(d0@, items@[i as int]@));
        }
        if !item.lattice_eq(&reformed) {
            return false;
        }
        assert(call_ensures(T::default, (), d0) && T::join(d0@, items@[i as int]@) == items@[i as int]@);
        assert(default_below::<T>(items@[i as int]@));
        i = i + 1;
    }
    true
}

/// Runs every check of this module on `items`, in order: the order agrees with `merge`,
/// the partial-order laws, the lattice laws, the bottom and top items, and `T::default()`
/// being the bottom.
pub fn check_all<T: Lattice + Default + PartialOrd>(items: &[T]) -> (r: bool)
    requires
        all_wf(items@),
    ensures
        exists|d: T|
            call_ensures(T::default, (), d) && (r ==> d@ == T::bot_point()) && (own_order_lawful::<T>()
                && eq_by_points::<T>() ==> r == (order_agrees(items@) && own_partial_ord_properties_hold(
                items@,
            ) && own_lattice_properties_hold(items@) && own_bot_is_least(items@) && own_top_is_greatest(
                items@,
            ) && d@ == T::bot_point())),
{
    let ord = check_lattice_ord(items);
    let partial = check_partial_ord_properties(items);
    let props = check_lattice_properties(items);
    let bot = check_lattice_is_bot(items);
    let top = check_lattice_is_top(items);
    let default_bot = check_lattice_default_is_bot::<T>();
    ord && partial && props && bot && top && default_bot
}

} // verus!
