//! The map-union lattice: maps whose values are lattices, joined key by key.
use vstd::prelude::*;

use crate::checks::lemma_le_transitive;
use crate::lattice::{lattice_le, IsBot, IsTop, Lattice, LatticeEq, LatticeOrd, Merge};
use crate::set_union::{copy_items, position_of, Item};

verus! {

/// Key-wise join: keys of either map, values of keys in both joined.
pub open spec fn map_join<K, V: Merge>(a: Map<K, V::V>, b: Map<K, V::V>) -> Map<K, V::V> {
    Map::new(
        |k: K| a.contains_key(k) || b.contains_key(k),
        |k: K|
            if a.contains_key(k) && b.contains_key(k) {
                V::join(a[k], b[k])
            } else if a.contains_key(k) {
                a[k]
            } else {
                b[k]
            },
    )
}

/// The map with key `keys[i]` bound to the view of `vals[i]`.
pub open spec fn pairs_view<K, V: View>(keys: Seq<K>, vals: Seq<V>) -> Map<K, V::V> {
    Map::new(
        |k: K| keys.contains(k),
        |k: K| vals[choose|i: int| 0 <= i < keys.len() && keys[i] == k]@,
    )
}

proof fn lemma_pairs_view_at<K, V: View>(keys: Seq<K>, vals: Seq<V>, i: int)
    requires
        keys.no_duplicates(),
        0 <= i < keys.len(),
    ensures
        pairs_view(keys, vals).contains_key(keys[i]),
        pairs_view(keys, vals)[keys[i]] == vals[i]@,
{
    assert(keys.contains(keys[i]));
    let j = choose|j: int| 0 <= j < keys.len() && keys[j] == keys[i];
    assert(j == i);
}

proof fn lemma_pairs_view_push<K, V: View>(keys: Seq<K>, vals: Seq<V>, k: K, v: V)
    requires
        keys.no_duplicates(),
        keys.len() == vals.len(),
        !keys.contains(k),
    ensures
        keys.push(k).no_duplicates(),
        pairs_view(keys.push(k), vals.push(v)) == pairs_view(keys, vals).insert(k, v@),
{
    let nk = keys.push(k);
    let nv = vals.push(v);
    assert(nk.no_duplicates()) by {
        assert forall|i: int, j: int| 0 <= i < nk.len() && 0 <= j < nk.len() && i != j implies nk[i]
            != nk[j] by {
            if i < keys.len() && j < keys.len() {
            } else if i == keys.len() {
                assert(keys.contains(keys[j]));
            } else {
                assert(keys.contains(keys[i]));
            }
        }
    }
    assert forall|x: K| #[trigger] pairs_view(nk, nv).contains_key(x) implies pairs_view(nk, nv)[x]
        == pairs_view(keys, vals).insert(k, v@)[x] by {
        let i = choose|i: int| 0 <= i < nk.len() && nk[i] == x;
        lemma_pairs_view_at(nk, nv, i);
        if i < keys.len() {
            lemma_pairs_view_at(keys, vals, i);
        }
    }
    assert forall|x: K| #[trigger] pairs_view(keys, vals).insert(k, v@).contains_key(x)
        implies pairs_view(nk, nv).contains_key(x) by {
        if x != k {
            let i = choose|i: int| 0 <= i < keys.len() && keys[i] == x;
            assert(nk[i] == x);
        } else {
            assert(nk[keys.len() as int] == x);
        }
    }
    assert(pairs_view(nk, nv) =~= pairs_view(keys, vals).insert(k, v@));
}

proof fn lemma_pairs_view_update<K, V: View>(keys: Seq<K>, vals: Seq<V>, i: int, v: V)
    requires
        keys.no_duplicates(),
        keys.len() == vals.len(),
        0 <= i < keys.len(),
    ensures
        pairs_view(keys, vals.update(i, v)) == pairs_view(keys, vals).insert(keys[i], v@),
{
    let nv = vals.update(i, v);
    assert forall|x: K| #[trigger] pairs_view(keys, nv).contains_key(x) implies pairs_view(keys, nv)[x]
        == pairs_view(keys, vals).insert(keys[i], v@)[x] by {
        let j = choose|j: int| 0 <= j < keys.len() && keys[j] == x;
        lemma_pairs_view_at(keys, nv, j);
        lemma_pairs_view_at(keys, vals, j);
    }
    assert forall|x: K| #[trigger] pairs_view(keys, vals).insert(keys[i], v@).contains_key(x)
        implies pairs_view(keys, nv).contains_key(x) by {}
    assert(pairs_view(keys, nv) =~= pairs_view(keys, vals).insert(keys[i], v@));
}

proof fn lemma_pairs_view_drop_last<K, V: View>(keys: Seq<K>, vals: Seq<V>)
    requires
        keys.no_duplicates(),
        keys.len() == vals.len(),
        keys.len() > 0,
    ensures
        keys.drop_last().no_duplicates(),
        !keys.drop_last().contains(keys.last()),
        pairs_view(keys, vals) == pairs_view(keys.drop_last(), vals.drop_last()).insert(
            keys.last(),
            vals.last()@,
        ),
{
    let dk = keys.drop_last();
    let dv = vals.drop_last();
    assert(dk.no_duplicates());
    assert(!dk.contains(keys.last())) by {
        if dk.contains(keys.last()) {
            let j = choose|j: int| 0 <= j < dk.len() && dk[j] == keys.last();
            assert(keys[j] == keys[keys.len() - 1]);
        }
    }
    assert(keys == dk.push(keys.last()));
    assert(vals == dv.push(vals.last()));
    lemma_pairs_view_push(dk, dv, keys.last(), vals.last());
}

/// Map-union lattice with keys `K` and lattice values `V`.
#[derive(Clone, Debug)]
pub struct MapUnion<K, V> {
    keys: Vec<K>,
    vals: Vec<V>,
}

impl<K, V: View> View for MapUnion<K, V> {
    type V = Map<K, V::V>;

    closed spec fn view(&self) -> Map<K, V::V> {
        pairs_view(self.keys@, self.vals@)
    }
}

impl<K: Item, V: LatticeEq> MapUnion<K, V> {
    /// The empty map.
    pub fn empty() -> (r: Self)
        ensures
            r@ == Map::<K, V::V>::empty(),
            r.wf(),
    {
        let r = MapUnion { keys: Vec::new(), vals: Vec::new() };
        assert(r@ =~= Map::<K, V::V>::empty());
        r
    }

    /// A map holding `entries`; a later entry for the same key replaces an earlier one.
    pub fn new_from(entries: Vec<(K, V)>) -> (r: Self)
        requires
            forall|i: int| 0 <= i < entries@.len() ==> (#[trigger] entries@[i]).1.wf(),
        ensures
            r.wf(),
            forall|k: K| #[trigger] r@.contains_key(k) <==> exists|i: int| 0 <= i < entries@.len() && entries@[i].0 == k,
            forall|i: int|
                0 <= i < entries@.len() && (forall|j: int| i < j < entries@.len() ==> entries@[j].0 != entries@[i].0)
                    ==> #[trigger] r@[entries@[i].0] == entries@[i].1@,
    {
        let mut r = MapUnion::empty();
        let mut rest = entries;
        let ghost all = rest@;
        let mut taken: usize = 0;
        let mut firsts: Vec<(K, V)> = Vec::new();
        // Insert from the last entry down, keeping the first insertion of each key.
        while rest.len() > 0
            invariant
                r.wf(),
                all == entries@,
                rest@.len() <= all.len(),
                rest@ == all.take(rest@.len() as int),
                forall|i: int| 0 <= i < all.len() ==> (#[trigger] all[i]).1.wf(),
                forall|k: K| #[trigger] r@.contains_key(k) <==> exists|i: int| rest@.len() <= i < all.len() && all[i].0 == k,
                forall|i: int|
                    rest@.len() <= i < all.len() && (forall|j: int| i < j < all.len() ==> all[j].0 != all[i].0)
                        ==> #[trigger] r@[all[i].0] == all[i].1@,
            decreases rest@.len(),
        {
            let ghost n = rest@.len() as int;
            let (k, v) = rest.pop().unwrap();
            assert(all[n - 1] == (k, v));
            proof {
                assert(rest@ == all.take(n - 1));
            }
            if !r.contains_key(&k) {
                r.insert(k, v);
            }
            proof {
                assert forall|kk: K| #[trigger] r@.contains_key(kk) <==> exists|i: int| n - 1 <= i < all.len() && all[i].0 == kk by {
                    if kk == k {
                        assert(all[n - 1].0 == kk);
                    }
                    if exists|i: int| n - 1 <= i < all.len() && all[i].0 == kk {
                        let i = choose|i: int| n - 1 <= i < all.len() && all[i].0 == kk;
                        if i != n - 1 {
                        }
                    }
                }
            }
        }
        r
    }

    /// Whether `k` is a key.
    pub fn contains_key(&self, k: &K) -> (r: bool)
        ensures
            r == self@.contains_key(*k),
    {
        position_of(&self.keys, k).is_some()
    }

    /// The value of `k`, if any.
    pub fn get(&self, k: &K) -> (r: Option<&V>)
        requires
            self.wf(),
        ensures
            match r {
                Some(v) => self@.contains_key(*k) && v@ == self@[*k] && v.wf(),
                None => !self@.contains_key(*k),
            },
    {
        match position_of(&self.keys, k) {
            Some(i) => {
                proof {
                    lemma_pairs_view_at(self.keys@, self.vals@, i as int);
                }
                Some(&self.vals[i])
            },
            None => None,
        }
    }

    /// Binds `k` to `v`, replacing any previous value.
    pub fn insert(&mut self, k: K, v: V)
        requires
            old(self).wf(),
            v.wf(),
        ensures
            final(self).wf(),
            final(self)@ == old(self)@.insert(k, v@),
    {
        match position_of(&self.keys, &k) {
            Some(i) => {
                proof {
                    lemma_pairs_view_update(self.keys@, self.vals@, i as int, v);
                }
                self.vals.set(i, v);
            },
            None => {
                proof {
                    lemma_pairs_view_push(self.keys@, self.vals@, k, v);
                }
                self.keys.push(k);
                self.vals.push(v);
            },
        }
    }

    /// Number of keys.
    pub fn len(&self) -> (r: usize)
        requires
            self.wf(),
        ensures
            r == self@.len(),
    {
        proof {
            self.keys@.unique_seq_to_set();
            assert(self@.dom() =~= self.keys@.to_set());
        }
        self.keys.len()
    }

    /// Merges `v` into the value of `k`, binding it if `k` is new. Returns whether the
    /// map changed.
    fn merge_entry(&mut self, k: K, v: V) -> (changed: bool)
        requires
            old(self).wf(),
            v.wf(),
        ensures
            final(self).wf(),
            final(self)@ == (if old(self)@.contains_key(k) {
                old(self)@.insert(k, V::join(old(self)@[k], v@))
            } else {
                old(self)@.insert(k, v@)
            }),
            changed == !(old(self)@.contains_key(k) && V::join(old(self)@[k], v@) == old(self)@[k]),
    {
        match position_of(&self.keys, &k) {
            Some(i) => {
                proof {
                    lemma_pairs_view_at(self.keys@, self.vals@, i as int);
                }
                let mut cur = self.vals.remove(i);
                proof {
                    V::lemma_wf_mergeable(&v);
                }
                let ch = cur.merge(v);
                let ghost cur_view = cur@;
                self.vals.insert(i, cur);
                proof {
                    assert(self.vals@ == old(self).vals@.update(i as int, self.vals@[i as int]));
                    lemma_pairs_view_update(old(self).keys@, old(self).vals@, i as int, self.vals@[i as int]);
                    assert forall|j: int| 0 <= j < self.vals@.len() implies #[trigger] self.vals@[j].wf() by {
                        if j != i {
                            assert(self.vals@[j] == old(self).vals@[j]);
                        }
                    }
                }
                ch
            },
            None => {
                proof {
                    lemma_pairs_view_push(self.keys@, self.vals@, k, v);
                }
                self.keys.push(k);
                self.vals.push(v);
                true
            },
        }
    }
}

/// Joining `b` with one more entry into `a` equals first merging that entry into `a`.
proof fn lemma_join_insert<K, V: Merge>(a: Map<K, V::V>, b: Map<K, V::V>, k: K, v: V::V)
    requires
        !b.contains_key(k),
    ensures
        map_join::<K, V>(a, b.insert(k, v)) == map_join::<K, V>(
            if a.contains_key(k) {
                a.insert(k, V::join(a[k], v))
            } else {
                a.insert(k, v)
            },
            b,
        ),
{
    let a2 = if a.contains_key(k) {
        a.insert(k, V::join(a[k], v))
    } else {
        a.insert(k, v)
    };
    assert(map_join::<K, V>(a, b.insert(k, v)) =~= map_join::<K, V>(a2, b));
}

impl<K: Item, V: LatticeEq> Merge for MapUnion<K, V> {
    open spec fn is_point(m: Map<K, V::V>) -> bool {
        &&& m.dom().finite()
        &&& forall|k: K| #[trigger] m.contains_key(k) ==> V::is_point(m[k])
    }

    open spec fn join(a: Map<K, V::V>, b: Map<K, V::V>) -> Map<K, V::V> {
        map_join::<K, V>(a, b)
    }

    closed spec fn wf(&self) -> bool {
        &&& self.keys@.no_duplicates()
        &&& self.keys@.len() == self.vals@.len()
        &&& forall|i: int| 0 <= i < self.vals@.len() ==> #[trigger] self.vals@[i].wf()
    }

    open spec fn mergeable(&self) -> bool {
        self.wf()
    }

    proof fn lemma_wf_mergeable(x: &Self) {
    }

    proof fn lemma_view_is_point(x: &Self) {
        let m = x@;
        vstd::seq_lib::seq_to_set_is_finite(x.keys@);
        assert(m.dom() =~= x.keys@.to_set());
        assert forall|k: K| #[trigger] m.contains_key(k) implies V::is_point(m[k]) by {
            let i = choose|i: int| 0 <= i < x.keys@.len() && x.keys@[i] == k;
            V::lemma_view_is_point(&x.vals@[i]);
        }
    }

    proof fn lemma_join_laws(a: Map<K, V::V>, b: Map<K, V::V>, c: Map<K, V::V>) {
        let ab = map_join::<K, V>(a, b);
        assert(ab.dom() =~= a.dom().union(b.dom()));
        assert forall|k: K| #[trigger] ab.contains_key(k) implies V::is_point(ab[k]) by {
            if a.contains_key(k) && b.contains_key(k) {
                V::lemma_join_laws(a[k], b[k], b[k]);
            }
        }
        assert forall|k: K| #[trigger] a.contains_key(k) implies map_join::<K, V>(a, a)[k] == a[k] by {
            V::lemma_join_laws(a[k], a[k], a[k]);
        }
        assert(map_join::<K, V>(a, a) =~= a);
        assert forall|k: K| #[trigger] ab.contains_key(k) implies ab[k] == map_join::<K, V>(b, a)[k] by {
            if a.contains_key(k) && b.contains_key(k) {
                V::lemma_join_laws(a[k], b[k], b[k]);
            }
        }
        assert(ab =~= map_join::<K, V>(b, a));
        let l = map_join::<K, V>(a, map_join::<K, V>(b, c));
        let r = map_join::<K, V>(ab, c);
        assert forall|k: K| #[trigger] l.contains_key(k) implies l[k] == r[k] by {
            if a.contains_key(k) && b.contains_key(k) && c.contains_key(k) {
                V::lemma_join_laws(a[k], b[k], c[k]);
            }
        }
        assert(l =~= r);
    }

    /// Merges every entry of `other` key by key.
    fn merge(&mut self, other: Self) -> (changed: bool) {
        let ghost old_view = self@;
        let ghost target = map_join::<K, V>(old_view, other@);
        let mut keys = other.keys;
        let mut vals = other.vals;
        let mut changed = false;
        proof {
            Self::lemma_view_is_point(self);
            assert forall|k: K| #[trigger] old_view.contains_key(k) implies self@.contains_key(k)
                && lattice_le::<V>(old_view[k], self@[k]) by {
                V::lemma_join_laws(old_view[k], old_view[k], old_view[k]);
            }
        }
        while keys.len() > 0
            invariant
                self.wf(),
                keys@.no_duplicates(),
                keys@.len() == vals@.len(),
                forall|i: int| 0 <= i < vals@.len() ==> #[trigger] vals@[i].wf(),
                map_join::<K, V>(self@, pairs_view(keys@, vals@)) == target,
                forall|k: K| #[trigger] old_view.contains_key(k) ==> self@.contains_key(k)
                    && lattice_le::<V>(old_view[k], self@[k]),
                Self::is_point(old_view),
                Self::is_point(self@),
                changed == (self@ != old_view),
            decreases keys@.len(),
        {
            let ghost ks = keys@;
            let ghost vs = vals@;
            proof {
                lemma_pairs_view_drop_last(ks, vs);
                assert(vs.last().wf());
            }
            let k = keys.pop().unwrap();
            let v = vals.pop().unwrap();
            let ghost before = self@;
            proof {
                lemma_join_insert::<K, V>(before, pairs_view(keys@, vals@), k, v@);
                V::lemma_view_is_point(&v);
            }
            let step = self.merge_entry(k, v);
            proof {
                Self::lemma_view_is_point(self);
                if before.contains_key(k) {
                    V::lemma_join_laws(before[k], v@, v@);
                    V::lemma_join_laws(before[k], before[k], v@);
                    lemma_le_transitive::<V>(before[k], V::join(before[k], v@), before[k]);
                }
                assert forall|kk: K| #[trigger] old_view.contains_key(kk) implies self@.contains_key(kk)
                    && lattice_le::<V>(old_view[kk], self@[kk]) by {
                    if kk == k {
                        V::lemma_join_laws(old_view[kk], before[kk], v@);
                        lemma_le_transitive::<V>(old_view[kk], before[kk], self@[kk]);
                    }
                }
                if step {
                    if before == old_view {
                        assert(self@ != old_view) by {
                            if before.contains_key(k) {
                                assert(self@[k] != before[k]);
                            } else {
                                assert(self@.contains_key(k));
                            }
                        }
                    } else {
                        assert(self@ != old_view) by {
                            if self@ == old_view {
                                if before.contains_key(k) {
                                    let a = before[k];
                                    let b = self@[k];
                                    assert(b == V::join(a, v@));
                                    V::lemma_join_laws(a, a, v@);
                                    assert(lattice_le::<V>(a, b));
                                    assert(old_view.contains_key(k));
                                    assert(lattice_le::<V>(old_view[k], a));
                                    assert(lattice_le::<V>(b, a));
                                    V::lemma_join_laws(a, b, b);
                                    assert(a == b);
                                    assert(before =~= self@);
                                } else {
                                    assert(!old_view.contains_key(k));
                                }
                            }
                        }
                    }
                } else {
                    assert(self@ =~= before);
                }
            }
            changed = changed || step;
        }
        proof {
            assert(pairs_view(keys@, vals@) =~= Map::<K, V::V>::empty());
            assert(map_join::<K, V>(self@, Map::<K, V::V>::empty()) =~= self@);
        }
        changed
    }
}

impl<K: Item, V: LatticeOrd> MapUnion<K, V> {
    /// Whether every key of `self` is a key of `other` with a value that `pred` accepts
    /// against the value of `self`; `le` selects the order test, otherwise equality.
    fn keys_within(&self, other: &Self, le: bool) -> (r: bool)
        requires
            self.wf(),
            other.wf(),
        ensures
            r == (forall|k: K| #[trigger] self@.contains_key(k) ==> other@.contains_key(k) && (if le {
                lattice_le::<V>(self@[k], other@[k])
            } else {
                self@[k] == other@[k]
            })),
    {
        let mut i: usize = 0;
        while i < self.keys.len()
            invariant
                self.wf(),
                other.wf(),
                i <= self.keys@.len(),
                forall|j: int|
                    0 <= j < i ==> other@.contains_key(#[trigger] self.keys@[j]) && (if le {
                        lattice_le::<V>(self@[self.keys@[j]], other@[self.keys@[j]])
                    } else {
                        self@[self.keys@[j]] == other@[self.keys@[j]]
                    }),
            decreases self.keys@.len() - i,
        {
            proof {
                lemma_pairs_view_at(self.keys@, self.vals@, i as int);
            }
            match other.get(&self.keys[i]) {
                Some(ov) => {
                    let ok = if le {
                        self.vals[i].lattice_le(ov)
                    } else {
                        self.vals[i].lattice_eq(ov)
                    };
                    if !ok {
                        assert(self@.contains_key(self.keys@[i as int]));
                        return false;
                    }
                },
                None => {
                    assert(self@.contains_key(self.keys@[i as int]));
                    return false;
                },
            }
            i = i + 1;
        }
        assert forall|k: K| #[trigger] self@.contains_key(k) implies other@.contains_key(k) && (if le {
            lattice_le::<V>(self@[k], other@[k])
        } else {
            self@[k] == other@[k]
        }) by {
            let j = choose|j: int| 0 <= j < self.keys@.len() && self.keys@[j] == k;
            assert(other@.contains_key(self.keys@[j]));
        }
        true
    }
}

impl<K: Item, V: LatticeOrd> LatticeEq for MapUnion<K, V> {
    fn lattice_eq(&self, other: &Self) -> (r: bool) {
        let r = self.keys_within(other, false) && other.keys_within(self, false);
        proof {
            if r {
                assert(self@ =~= other@);
            }
        }
        r
    }

    fn clone_point(&self) -> (r: Self) {
        let keys = copy_items(&self.keys);
        let mut vals: Vec<V> = Vec::new();
        let mut i: usize = 0;
        while i < self.vals.len()
            invariant
                self.wf(),
                i <= self.vals@.len(),
                vals@.len() == i,
                forall|j: int| 0 <= j < i ==> (#[trigger] vals@[j])@ == self.vals@[j]@ && vals@[j].wf(),
            decreases self.vals@.len() - i,
        {
            vals.push(self.vals[i].clone_point());
            i = i + 1;
        }
        let r = MapUnion { keys, vals };
        proof {
            assert(r.keys@ == self.keys@);
            assert forall|k: K| #[trigger] r@.contains_key(k) implies r@[k] == self@[k] by {
                let i = choose|i: int| 0 <= i < self.keys@.len() && self.keys@[i] == k;
                assert(r.vals@[i]@ == self.vals@[i]@);
            }
            assert forall|j: int| 0 <= j < r.vals@.len() implies #[trigger] r.vals@[j].wf() by {
                assert(self.vals@[j].wf());
            }
            assert(r@ =~= self@);
        }
        r
    }
}

impl<K: Item, V: LatticeOrd> LatticeOrd for MapUnion<K, V> {
    fn lattice_le(&self, other: &Self) -> (r: bool) {
        let r = self.keys_within(other, true);
        proof {
            let j = map_join::<K, V>(self@, other@);
            Self::lemma_view_is_point(self);
            Self::lemma_view_is_point(other);
            if r {
                assert forall|k: K| #[trigger] j.contains_key(k) implies j[k] == other@[k] by {
                    if self@.contains_key(k) {
                        assert(lattice_le::<V>(self@[k], other@[k]));
                    }
                }
                assert(j =~= other@);
            } else {
                if j == other@ {
                    assert forall|k: K| #[trigger] self@.contains_key(k) implies other@.contains_key(k)
                        && lattice_le::<V>(self@[k], other@[k]) by {
                        assert(j.contains_key(k));
                    }
                }
            }
        }
        r
    }
}

impl<K: Item, V: LatticeOrd> IsBot for MapUnion<K, V> {
    open spec fn bot_point() -> Map<K, V::V> {
        Map::empty()
    }

    proof fn lemma_bot_least(a: Map<K, V::V>) {
        assert(map_join::<K, V>(Map::empty(), a) =~= a);
    }

    fn is_bot(&self) -> (r: bool) {
        let r = self.keys.len() == 0;
        proof {
            if r {
                assert(self@ =~= Map::<K, V::V>::empty());
            } else {
                assert(self@.contains_key(self.keys@[0]));
            }
        }
        r
    }
}

impl<K: Item, V: LatticeOrd> IsTop for MapUnion<K, V> {
    /// A finite map is never reported as the top.
    open spec fn is_top_point(v: Map<K, V::V>) -> bool {
        false
    }

    proof fn lemma_top_greatest(t: Map<K, V::V>, a: Map<K, V::V>) {
    }

    fn is_top(&self) -> (r: bool) {
        false
    }
}

impl<K: Item, V: LatticeOrd> Lattice for MapUnion<K, V> {

}

impl<K: Item, V: LatticeOrd> Default for MapUnion<K, V> {
    fn default() -> (r: Self)
        ensures
            r@ == Map::<K, V::V>::empty(),
            r.wf(),
    {
        MapUnion::empty()
    }
}

impl<K: Item, V: LatticeEq> MapUnion<K, V> {
    /// The keys and their values, position by position.
    pub fn as_reveal_ref(&self) -> (r: (&Vec<K>, &Vec<V>))
        ensures
            r.0@.len() == r.1@.len() || !self.wf(),
            r.0@.to_set() == self@.dom(),
            self.wf() ==> r.0@.no_duplicates(),
            self.wf() ==> forall|i: int| 0 <= i < r.0@.len() ==> #[trigger] self@[r.0@[i]] == r.1@[i]@,
            self.wf() ==> forall|i: int| 0 <= i < r.1@.len() ==> (#[trigger] r.1@[i]).wf(),
    {
        proof {
            assert(self@.dom() =~= self.keys@.to_set());
            if self.wf() {
                assert forall|i: int| 0 <= i < self.keys@.len() implies #[trigger] self@[self.keys@[i]]
                    == self.vals@[i]@ by {
                    lemma_pairs_view_at(self.keys@, self.vals@, i);
                }
            }
        }
        (&self.keys, &self.vals)
    }
}

} // verus!
