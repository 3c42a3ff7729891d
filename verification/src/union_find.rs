//! The union-find lattice: a partition of `u64` items into equivalence classes.
use std::collections::HashMap;
use vstd::prelude::*;
use vstd::std_specs::iter::IteratorSpec;

use crate::lattice::{IsBot, IsTop, Lattice, LatticeEq, LatticeOrd, Max, Merge, Min};

verus! {

broadcast use vstd::std_specs::hash::group_hash_axioms;

/// Whether `r` is reflexive, symmetric and transitive.
pub open spec fn is_equivalence(r: Set<(u64, u64)>) -> bool {
    &&& forall|a: u64| #[trigger] r.contains((a, a))
    &&& forall|a: u64, b: u64| #[trigger] r.contains((a, b)) ==> r.contains((b, a))
    &&& forall|a: u64, b: u64, c: u64|
        #[trigger] r.contains((a, b)) && #[trigger] r.contains((b, c)) ==> r.contains((a, c))
}

/// The least equivalence relation that contains `s`.
pub open spec fn equiv_closure(s: Set<(u64, u64)>) -> Set<(u64, u64)> {
    Set::new(
        |p: (u64, u64)|
            forall|e: Set<(u64, u64)>| #[trigger] is_equivalence(e) && s.subset_of(e) ==> e.contains(p),
    )
}

/// `union` and `same` are monotone: after `union(a, b)` every pair that was in the same set
/// still is, and `a` and `b` now are, so a later `union(a, b)` returns `false` and
/// `same(a, b)` returns `true` from then on.
pub proof fn lemma_union_monotone(rel: Set<(u64, u64)>, a: u64, b: u64)
    ensures
        rel.subset_of(equiv_closure(rel.insert((a, b)))),
        equiv_closure(rel.insert((a, b))).contains((a, b)),
        equiv_closure(equiv_closure(rel.insert((a, b))).insert((a, b))) == equiv_closure(rel.insert((a, b))),
{
    let c = equiv_closure(rel.insert((a, b)));
    lemma_closure_is_equivalence(rel.insert((a, b)));
    lemma_closure_of_equivalence(c);
    assert(c.insert((a, b)) =~= c);
}

/// Merging only grows the relation: every pair of either side stays related.
pub proof fn lemma_merge_monotone(x: Set<(u64, u64)>, y: Set<(u64, u64)>)
    ensures
        x.subset_of(equiv_closure(x.union(y))),
        y.subset_of(equiv_closure(x.union(y))),
{
    lemma_closure_is_equivalence(x.union(y));
}

/// `find` is monotone in the lattice order of `Min`: when the relation grows, the least
/// member of an item's set can only get smaller.
pub proof fn lemma_find_monotone(rel: Set<(u64, u64)>, bigger: Set<(u64, u64)>, item: u64, r1: u64, r2: u64)
    requires
        rel.subset_of(bigger),
        rel.contains((item, r1)),
        bigger.contains((item, r2)),
        forall|y: u64| #[trigger] bigger.contains((item, y)) ==> r2 <= y,
    ensures
        r2 <= r1,
{
    assert(bigger.contains((item, r1)));
}

/// The identity relation, the partition in which every item is alone.
pub open spec fn identity_relation() -> Set<(u64, u64)> {
    Set::new(|p: (u64, u64)| p.0 == p.1)
}

/// Every stored parent is no larger than its child.
pub open spec fn parents_ordered(m: Map<u64, u64>) -> bool {
    forall|k: u64| #[trigger] m.contains_key(k) ==> m[k] <= k
}

/// Follows parent links downwards until an item without a smaller parent.
pub open spec fn root_of(m: Map<u64, u64>, x: u64) -> u64
    decreases x,
{
    if m.contains_key(x) && m[x] < x {
        root_of(m, m[x])
    } else {
        x
    }
}

/// Whether `k` is reached from `x` by following parent links down to the root, `x` and
/// the root included.
pub open spec fn on_path(m: Map<u64, u64>, x: u64, k: u64) -> bool
    decreases x,
{
    k == x || (m.contains_key(x) && m[x] < x && on_path(m, m[x], k))
}

/// The parent links after path compression from `item`: every key on the path from
/// `item` points straight at the root, every other entry is kept.
pub open spec fn compress_path(m: Map<u64, u64>, item: u64) -> Map<u64, u64> {
    Map::new(
        |k: u64| m.contains_key(k),
        |k: u64|
            if on_path(m, item, k) {
                root_of(m, item)
            } else {
                m[k]
            },
    )
}

proof fn lemma_on_path_facts(m: Map<u64, u64>, x: u64, k: u64)
    requires
        on_path(m, x, k),
    ensures
        k <= x,
        root_of(m, k) == root_of(m, x),
        root_of(m, x) <= k,
    decreases x,
{
    lemma_root_facts(m, k);
    if k != x {
        lemma_on_path_facts(m, m[x], k);
    }
}

/// On one path, a key at or below another key on it lies on the path from that key.
proof fn lemma_on_path_suffix(m: Map<u64, u64>, x: u64, j: u64, k: u64)
    requires
        on_path(m, x, j),
        on_path(m, x, k),
        k <= j,
    ensures
        on_path(m, j, k),
    decreases x,
{
    if x == j {
    } else if k == x {
        lemma_on_path_facts(m, x, j);
    } else {
        lemma_on_path_suffix(m, m[x], j, k);
    }
}

/// Path compression changes no root.
proof fn lemma_compress_roots(m: Map<u64, u64>, item: u64, x: u64)
    requires
        parents_ordered(m),
    ensures
        root_of(compress_path(m, item), x) == root_of(m, x),
    decreases x,
{
    let c = compress_path(m, item);
    let r = root_of(m, item);
    lemma_root_facts(m, item);
    if c.contains_key(x) && on_path(m, item, x) {
        lemma_on_path_facts(m, item, x);
        if r < x {
            assert(on_path(m, item, r)) by {
                lemma_root_on_path(m, item);
            }
            assert(root_of(c, r) == r);
        }
    } else if m.contains_key(x) && m[x] < x {
        lemma_compress_roots(m, item, m[x]);
    }
}

/// Following a path to a key and then on from it stays on the first path.
proof fn lemma_on_path_transitive(m: Map<u64, u64>, x: u64, j: u64, k: u64)
    requires
        on_path(m, x, j),
        on_path(m, j, k),
    ensures
        on_path(m, x, k),
    decreases x,
{
    if x != j {
        lemma_on_path_transitive(m, m[x], j, k);
    }
}

/// The root is on the path from any item.
proof fn lemma_root_on_path(m: Map<u64, u64>, x: u64)
    ensures
        on_path(m, x, root_of(m, x)),
    decreases x,
{
    if m.contains_key(x) && m[x] < x {
        lemma_root_on_path(m, m[x]);
    }
}

/// Path compression keeps the links ordered and the partition unchanged.
pub proof fn lemma_compress_keeps_partition(m: Map<u64, u64>, item: u64)
    requires
        parents_ordered(m),
    ensures
        parents_ordered(compress_path(m, item)),
        compress_path(m, item).dom() == m.dom(),
        root_relation(compress_path(m, item)) == root_relation(m),
        equiv_closure(compress_path(m, item).kv_pairs()) == equiv_closure(m.kv_pairs()),
{
    let c = compress_path(m, item);
    assert forall|k: u64| #[trigger] c.contains_key(k) implies c[k] <= k by {
        if on_path(m, item, k) {
            lemma_on_path_facts(m, item, k);
        }
    }
    assert(c.dom() =~= m.dom());
    assert forall|x: u64| #[trigger] root_of(c, x) == root_of(m, x) by {
        lemma_compress_roots(m, item, x);
    }
    assert(root_relation(c) =~= root_relation(m));
    lemma_closure_is_root_relation(c);
    lemma_closure_is_root_relation(m);
}

/// Items are related when they have the same root.
pub open spec fn root_relation(m: Map<u64, u64>) -> Set<(u64, u64)> {
    Set::new(|p: (u64, u64)| root_of(m, p.0) == root_of(m, p.1))
}

/// `equiv_closure(s)` is an equivalence relation that contains `s`.
pub proof fn lemma_closure_is_equivalence(s: Set<(u64, u64)>)
    ensures
        is_equivalence(equiv_closure(s)),
        s.subset_of(equiv_closure(s)),
{
    let c = equiv_closure(s);
    assert forall|a: u64| #[trigger] c.contains((a, a)) by {
        assert forall|e: Set<(u64, u64)>| #[trigger] is_equivalence(e) && s.subset_of(e) implies e.contains(
            (a, a),
        ) by {}
    }
    assert forall|a: u64, b: u64| #[trigger] c.contains((a, b)) implies c.contains((b, a)) by {
        assert forall|e: Set<(u64, u64)>| #[trigger] is_equivalence(e) && s.subset_of(e) implies e.contains(
            (b, a),
        ) by {
            assert(e.contains((a, b)));
        }
    }
    assert forall|a: u64, b: u64, cc: u64| #[trigger]
        c.contains((a, b)) && #[trigger] c.contains((b, cc)) implies c.contains((a, cc)) by {
        assert forall|e: Set<(u64, u64)>| #[trigger] is_equivalence(e) && s.subset_of(e) implies e.contains(
            (a, cc),
        ) by {
            assert(e.contains((a, b)));
            assert(e.contains((b, cc)));
        }
    }
    assert forall|p: (u64, u64)| s.contains(p) implies #[trigger] c.contains(p) by {
        assert forall|e: Set<(u64, u64)>| #[trigger] is_equivalence(e) && s.subset_of(e) implies e.contains(
            p,
        ) by {}
    }
}

/// `equiv_closure(s)` lies inside every equivalence relation that contains `s`.
pub proof fn lemma_closure_least(s: Set<(u64, u64)>, e: Set<(u64, u64)>)
    requires
        is_equivalence(e),
        s.subset_of(e),
    ensures
        equiv_closure(s).subset_of(e),
{
    assert forall|p: (u64, u64)| #[trigger] equiv_closure(s).contains(p) implies e.contains(p) by {
        assert(is_equivalence(e) && s.subset_of(e));
    }
}

/// The closure of an equivalence relation is itself.
pub proof fn lemma_closure_of_equivalence(r: Set<(u64, u64)>)
    requires
        is_equivalence(r),
    ensures
        equiv_closure(r) == r,
{
    lemma_closure_is_equivalence(r);
    lemma_closure_least(r, r);
    assert(equiv_closure(r) =~= r);
}

/// Closing part of a union first does not change the closure of the union.
pub proof fn lemma_closure_absorb(a: Set<(u64, u64)>, b: Set<(u64, u64)>)
    ensures
        equiv_closure(equiv_closure(a).union(b)) == equiv_closure(a.union(b)),
{
    let ca = equiv_closure(a);
    let lhs = equiv_closure(ca.union(b));
    let rhs = equiv_closure(a.union(b));
    lemma_closure_is_equivalence(a);
    lemma_closure_is_equivalence(ca.union(b));
    lemma_closure_is_equivalence(a.union(b));
    lemma_closure_least(a, rhs);
    lemma_closure_least(ca.union(b), rhs);
    lemma_closure_least(a.union(b), lhs);
    assert(lhs =~= rhs);
}

proof fn lemma_root_facts(m: Map<u64, u64>, x: u64)
    ensures
        root_of(m, x) <= x,
        root_of(m, root_of(m, x)) == root_of(m, x),
        !(m.contains_key(root_of(m, x)) && m[root_of(m, x)] < root_of(m, x)),
    decreases x,
{
    if m.contains_key(x) && m[x] < x {
        lemma_root_facts(m, m[x]);
    }
}

/// Every equivalence relation holding the parent links relates an item to its root.
proof fn lemma_root_in_equivalence(m: Map<u64, u64>, e: Set<(u64, u64)>, x: u64)
    requires
        is_equivalence(e),
        m.kv_pairs().subset_of(e),
    ensures
        e.contains((x, root_of(m, x))),
    decreases x,
{
    if m.contains_key(x) && m[x] < x {
        lemma_root_in_equivalence(m, e, m[x]);
        assert(m.kv_pairs().contains((x, m[x])));
        assert(e.contains((x, m[x])));
        assert(e.contains((m[x], root_of(m, m[x]))));
    } else {
        assert(e.contains((x, x)));
    }
}

/// For ordered parent links, the partition is given by the roots.
pub proof fn lemma_closure_is_root_relation(m: Map<u64, u64>)
    requires
        parents_ordered(m),
    ensures
        equiv_closure(m.kv_pairs()) == root_relation(m),
{
    let r = root_relation(m);
    let c = equiv_closure(m.kv_pairs());
    assert(is_equivalence(r));
    assert forall|p: (u64, u64)| m.kv_pairs().contains(p) implies #[trigger] r.contains(p) by {
        assert(m[p.0] <= p.0);
        if m[p.0] < p.0 {
        }
    }
    lemma_closure_least(m.kv_pairs(), r);
    assert forall|p: (u64, u64)| #[trigger] r.contains(p) implies c.contains(p) by {
        assert forall|e: Set<(u64, u64)>| #[trigger]
            is_equivalence(e) && m.kv_pairs().subset_of(e) implies e.contains(p) by {
            lemma_root_in_equivalence(m, e, p.0);
            lemma_root_in_equivalence(m, e, p.1);
            assert(e.contains((root_of(m, p.1), p.1)));
        }
    }
    assert(c =~= r);
}

/// Linking root `rb` under the smaller root `ra` moves exactly the class of `rb` under `ra`.
proof fn lemma_link_roots(m: Map<u64, u64>, ra: u64, rb: u64, x: u64)
    requires
        ra < rb,
        root_of(m, ra) == ra,
        root_of(m, rb) == rb,
    ensures
        root_of(m.insert(rb, ra), x) == (if root_of(m, x) == rb {
            ra
        } else {
            root_of(m, x)
        }),
    decreases x,
{
    let m2 = m.insert(rb, ra);
    lemma_root_facts(m, ra);
    if x == rb {
        assert(root_of(m2, ra) == ra);
    } else if m.contains_key(x) && m[x] < x {
        lemma_link_roots(m, ra, rb, m[x]);
    } else {
    }
}

/// After linking the roots of `a` and `b`, the partition is the old one with the two classes fused.
proof fn lemma_union_relation(m: Map<u64, u64>, a: u64, b: u64)
    requires
        parents_ordered(m),
        root_of(m, a) < root_of(m, b),
    ensures
        parents_ordered(m.insert(root_of(m, b), root_of(m, a))),
        root_relation(m.insert(root_of(m, b), root_of(m, a))) == equiv_closure(
            root_relation(m).insert((a, b)),
        ),
{
    let ra = root_of(m, a);
    let rb = root_of(m, b);
    let m2 = m.insert(rb, ra);
    let r = root_relation(m);
    let r2 = root_relation(m2);
    let s = r.insert((a, b));
    lemma_root_facts(m, a);
    lemma_root_facts(m, b);
    assert forall|x: u64| #[trigger] root_of(m2, x) == (if root_of(m, x) == rb {
        ra
    } else {
        root_of(m, x)
    }) by {
        lemma_link_roots(m, ra, rb, x);
    }
    assert(is_equivalence(r2));
    assert forall|p: (u64, u64)| s.contains(p) implies #[trigger] r2.contains(p) by {
        if p != (a, b) {
            assert(r.contains(p));
        }
    }
    lemma_closure_least(s, r2);
    lemma_closure_is_equivalence(s);
    let c = equiv_closure(s);
    assert forall|p: (u64, u64)| #[trigger] r2.contains(p) implies c.contains(p) by {
        let x = p.0;
        let y = p.1;
        assert(s.contains((a, b)));
        if root_of(m, x) == root_of(m, y) {
            assert(s.contains(p));
        } else if root_of(m, x) == rb {
            assert(root_of(m, y) == ra);
            assert(s.contains((x, b)));
            assert(s.contains((a, y)));
            assert(c.contains((x, b)));
            assert(c.contains((b, a)));
            assert(c.contains((x, a)));
            assert(c.contains((a, y)));
        } else {
            assert(root_of(m, x) == ra);
            assert(root_of(m, y) == rb);
            assert(s.contains((x, a)));
            assert(s.contains((b, y)));
            assert(c.contains((x, a)));
            assert(c.contains((a, b)));
            assert(c.contains((x, b)));
            assert(c.contains((b, y)));
        }
    }
    assert(r2 =~= c);
}


/// Union-find lattice over `u64` items.
///
/// Each entry maps an item to its parent; the partition is the least equivalence
/// relation containing all entries. Operations other than `merge`'s argument rely on
/// every parent being no larger than its child, so that the root of a class is its
/// least item.
#[derive(Clone, Debug)]
pub struct UnionFind {
    map: HashMap<u64, u64>,
}

impl View for UnionFind {
    type V = Set<(u64, u64)>;

    /// The partition, as the set of related pairs.
    closed spec fn view(&self) -> Set<(u64, u64)> {
        equiv_closure(self.map@.kv_pairs())
    }
}

/// Lists the entries of a map.
fn entries(m: &HashMap<u64, u64>) -> (r: Vec<(u64, u64)>)
    ensures
        r@.to_set() == m@.kv_pairs(),
{
    let mut out: Vec<(u64, u64)> = Vec::new();
    let iter = m.iter();
    let ghost items = iter.remaining();
    for (k, v) in it: iter
        invariant
            it.seq() == items,
            out@.len() == it.index(),
            forall|i: int| 0 <= i < it.index() ==> out@[i] == (*items[i].0, *items[i].1),
    {
        out.push((*k, *v));
    }
    assert forall|p: (u64, u64)| #[trigger] out@.to_set().contains(p) implies m@.kv_pairs().contains(p) by {
        let i = choose|i: int| 0 <= i < out@.len() && out@[i] == p;
        assert(m@.contains_key(*items[i].0));
    }
    assert forall|p: (u64, u64)| #[trigger] m@.kv_pairs().contains(p) implies out@.to_set().contains(p) by {
        assert(m@.contains_key(p.0));
        assert(items.contains((&p.0, &m@[p.0])));
        let j = choose|j: int| 0 <= j < items.len() && items[j] == (&p.0, &m@[p.0]);
        assert(out@[j] == p);
    }
    assert(out@.to_set() =~= m@.kv_pairs());
    out
}

impl UnionFind {
    /// The parent links.
    pub closed spec fn parents(&self) -> Map<u64, u64> {
        self.map@
    }

    /// States how the view and the invariant follow from the parent links.
    pub proof fn lemma_reveal(&self)
        ensures
            self@ == equiv_closure(self.parents().kv_pairs()),
            self.wf() == parents_ordered(self.parents()),
            self.wf() ==> self@ == root_relation(self.parents()),
    {
        if self.wf() {
            lemma_closure_is_root_relation(self.map@);
        }
    }

    /// Creates a union-find from parent links.
    pub fn new(val: HashMap<u64, u64>) -> (r: Self)
        ensures
            r.parents() == val@,
            r@ == equiv_closure(val@.kv_pairs()),
            r.wf() == parents_ordered(val@),
    {
        UnionFind { map: val }
    }

    /// Creates a union-find from a list of parent links; a later link for the same item
    /// replaces an earlier one.
    pub fn new_from(val: &[(u64, u64)]) -> (r: Self)
        ensures
            r.parents() == map_of_links(val@),
            r@ == equiv_closure(map_of_links(val@).kv_pairs()),
            r.wf() == parents_ordered(map_of_links(val@)),
    {
        let mut map: HashMap<u64, u64> = HashMap::new();
        let mut i: usize = 0;
        while i < val.len()
            invariant
                i <= val@.len(),
                map@ == map_of_links(val@.take(i as int)),
            decreases val@.len() - i,
        {
            let (k, p) = val[i];
            map.insert(k, p);
            assert(val@.take(i + 1).drop_last() == val@.take(i as int));
            i = i + 1;
        }
        assert(val@.take(val@.len() as int) == val@);
        UnionFind::new(map)
    }

    /// Reveals the parent links.
    pub fn as_reveal_ref(&self) -> (r: &HashMap<u64, u64>)
        ensures
            r@ == self.parents(),
    {
        &self.map
    }

    /// Gives exclusive access to the parent links.
    pub fn as_reveal_mut(&mut self) -> (r: &mut HashMap<u64, u64>)
        ensures
            r@ == old(self).parents(),
            final(self).parents() == final(r)@,
    {
        &mut self.map
    }

    /// Returns the parent links, consuming `self`.
    pub fn into_reveal(self) -> (r: HashMap<u64, u64>)
        ensures
            r@ == self.parents(),
    {
        self.map
    }

    /// The root of `item`, found without changing any link.
    fn lookup_root(&self, item: u64) -> (r: u64)
        requires
            self.wf(),
        ensures
            r == root_of(self.parents(), item),
    {
        let mut root = item;
        loop
            invariant
                parents_ordered(self.map@),
                root_of(self.map@, root) == root_of(self.map@, item),
            ensures
                root_of(self.map@, root) == root_of(self.map@, item),
                root_of(self.map@, root) == root,
            decreases root,
        {
            match self.map.get(&root) {
                Some(parent) => {
                    let parent = *parent;
                    if parent == root {
                        break ;
                    }
                    assert(parent < root);
                    root = parent;
                },
                None => {
                    break ;
                },
            }
        }
        root
    }

    /// Finds the representative of the class of `item`: the least item of that class.
    /// Every item on the path from `item` to the root is relinked straight to the root.
    pub fn find(&mut self, item: u64) -> (r: Min<u64>)
        requires
            old(self).wf(),
        ensures
            r@ == root_of(old(self).parents(), item),
            old(self)@.contains((item, r@)),
            forall|y: u64| #[trigger] old(self)@.contains((item, y)) ==> r@ <= y,
            final(self).parents() == compress_path(old(self).parents(), item),
            final(self).parents().dom() == old(self).parents().dom(),
            final(self)@ == old(self)@,
            final(self).wf(),
    {
        let ghost m = self.map@;
        let root = self.lookup_root(item);
        let mut cur = item;
        proof {
            lemma_root_facts(m, item);
            assert forall|k: u64| on_path(m, item, k) implies k <= item by {
                lemma_on_path_facts(m, item, k);
            }
        }
        while cur != root
            invariant
                parents_ordered(m),
                root == root_of(m, item),
                on_path(m, item, cur),
                root_of(m, cur) == root,
                self.map@.dom() == m.dom(),
                forall|k: u64| #[trigger]
                    self.map@.contains_key(k) ==> self.map@[k] == (if on_path(m, item, k) && k > cur {
                        root
                    } else {
                        m[k]
                    }),
            decreases cur,
        {
            proof {
                lemma_on_path_facts(m, item, cur);
            }
            assert(m.contains_key(cur) && m[cur] < cur);
            assert(self.map@[cur] == m[cur]);
            let next = *self.map.get(&cur).unwrap();
            self.map.insert(cur, root);
            proof {
                assert(on_path(m, next, next));
                assert(on_path(m, cur, next));
                assert forall|k: u64| on_path(m, item, k) && next < k < cur implies false by {
                    lemma_on_path_suffix(m, item, cur, k);
                    lemma_on_path_facts(m, next, k);
                }
                assert(on_path(m, item, next)) by {
                    lemma_on_path_transitive(m, item, cur, next);
                }
                assert(self.map@.dom() =~= m.dom());
            }
            cur = next;
        }
        proof {
            let c = compress_path(m, item);
            assert forall|k: u64| #[trigger] self.map@.contains_key(k) implies self.map@[k] == c[k] by {
                if on_path(m, item, k) {
                    lemma_on_path_facts(m, item, k);
                    if k == root {
                        lemma_root_facts(m, item);
                    }
                }
            }
            assert(self.map@ =~= c);
            lemma_compress_keeps_partition(m, item);
            lemma_closure_is_root_relation(m);
            lemma_root_on_path(m, item);
            assert forall|y: u64| #[trigger] root_relation(m).contains((item, y)) implies root <= y by {
                lemma_root_facts(m, y);
            }
        }
        Min::new(root)
    }

    /// Whether `a` and `b` are in the same class. Once true, it stays true under
    /// merging, hence a `Max<bool>`. Both lookups compress their paths.
    pub fn same(&mut self, a: u64, b: u64) -> (r: Max<bool>)
        requires
            old(self).wf(),
        ensures
            r@ == old(self)@.contains((a, b)),
            final(self).parents() == compress_path(compress_path(old(self).parents(), a), b),
            final(self)@ == old(self)@,
            final(self).wf(),
    {
        let ghost m = self.map@;
        let ra = self.find(a).into_reveal();
        let ghost m1 = self.map@;
        let rb = self.find(b).into_reveal();
        proof {
            lemma_closure_is_root_relation(m);
            lemma_compress_keeps_partition(m, a);
            assert forall|x: u64| #[trigger] root_of(m1, x) == root_of(m, x) by {
                lemma_compress_roots(m, a, x);
            }
        }
        Max::new(ra == rb)
    }

    /// Fuses the classes of `a` and `b`. Returns whether the partition changed; once
    /// false it stays false for the same `a` and `b`, hence a `Min<bool>`. Both roots are
    /// looked up with `find`, which compresses their paths; when they differ, the larger
    /// root is linked under the smaller one.
    pub fn union(&mut self, a: u64, b: u64) -> (r: Min<bool>)
        requires
            old(self).wf(),
        ensures
            final(self).wf(),
            final(self)@ == equiv_closure(old(self)@.insert((a, b))),
            old(self)@.subset_of(final(self)@),
            final(self)@.contains((a, b)),
            r@ == !old(self)@.contains((a, b)),
            ({
                let ra = root_of(old(self).parents(), a);
                let rb = root_of(old(self).parents(), b);
                let compressed = compress_path(compress_path(old(self).parents(), a), b);
                final(self).parents() == if ra == rb {
                    compressed
                } else if ra < rb {
                    compressed.insert(rb, ra)
                } else {
                    compressed.insert(ra, rb)
                }
            }),
            root_of(final(self).parents(), a) == root_of(final(self).parents(), b),
            root_of(final(self).parents(), a) == (if root_of(old(self).parents(), a) <= root_of(
                old(self).parents(),
                b,
            ) {
                root_of(old(self).parents(), a)
            } else {
                root_of(old(self).parents(), b)
            }),
    {
        let ghost m = self.map@;
        proof {
            lemma_union_monotone(self@, a, b);
            lemma_closure_is_root_relation(m);
            lemma_closure_is_equivalence(m.kv_pairs());
            lemma_compress_keeps_partition(m, a);
            assert forall|x: u64| #[trigger] root_of(compress_path(m, a), x) == root_of(m, x) by {
                lemma_compress_roots(m, a, x);
            }
        }
        let mut a_root = self.find(a).into_reveal();
        let mut b_root = self.find(b).into_reveal();
        let ghost mc = self.map@;
        proof {
            assert forall|x: u64| #[trigger] root_of(mc, x) == root_of(m, x) by {
                lemma_compress_roots(compress_path(m, a), b, x);
            }
            assert(root_relation(mc) =~= root_relation(m));
        }
        if a_root == b_root {
            proof {
                lemma_compress_keeps_partition(compress_path(m, a), b);
                assert(self@.insert((a, b)) =~= self@);
                lemma_closure_of_equivalence(self@);
            }
            return Min::new(false);
        }
        if b_root < a_root {
            let t = a_root;
            a_root = b_root;
            b_root = t;
            proof {
                lemma_union_relation(mc, b, a);
                lemma_swap_pair(root_relation(mc), a, b);
            }
        } else {
            proof {
                lemma_union_relation(mc, a, b);
            }
        }
        self.map.insert(b_root, a_root);
        proof {
            lemma_closure_is_root_relation(self.map@);
            lemma_root_facts(mc, a);
            lemma_root_facts(mc, b);
            lemma_link_roots(mc, a_root, b_root, a);
            lemma_link_roots(mc, a_root, b_root, b);
        }
        Min::new(true)
    }
}

impl Merge for UnionFind {
    open spec fn is_point(v: Set<(u64, u64)>) -> bool {
        is_equivalence(v)
    }

    open spec fn join(a: Set<(u64, u64)>, b: Set<(u64, u64)>) -> Set<(u64, u64)> {
        equiv_closure(a.union(b))
    }

    closed spec fn wf(&self) -> bool {
        parents_ordered(self.map@)
    }

    /// Any parent links can be merged in.
    open spec fn mergeable(&self) -> bool {
        true
    }

    proof fn lemma_wf_mergeable(x: &Self) {
    }

    proof fn lemma_view_is_point(x: &Self) {
        lemma_closure_is_equivalence(x.map@.kv_pairs());
    }

    proof fn lemma_join_laws(a: Set<(u64, u64)>, b: Set<(u64, u64)>, c: Set<(u64, u64)>) {
        lemma_closure_is_equivalence(a.union(b));
        assert(a.union(a) =~= a);
        lemma_closure_of_equivalence(a);
        assert(a.union(b) =~= b.union(a));
        // Both sides are the closure of `a ∪ b ∪ c`.
        lemma_closure_absorb(b.union(c), a);
        assert(b.union(c).union(a) =~= a.union(b.union(c)));
        assert(equiv_closure(b.union(c)).union(a) =~= a.union(equiv_closure(b.union(c))));
        lemma_closure_absorb(a.union(b), c);
        assert(a.union(b).union(c) =~= a.union(b.union(c)));
    }

    /// Unions every parent link of `other` into `self`. `other` needs no ordering of
    /// its links.
    fn merge(&mut self, other: Self) -> (changed: bool)
        ensures
            old(self)@.subset_of(final(self)@),
            final(self)@ == equiv_closure(old(self)@.union(other.parents().kv_pairs())),
    {
        self.absorb(&other)
    }
}

impl UnionFind {
    /// A well-formed union-find with the same partition, whatever order `self`'s links have.
    pub fn normalized(&self) -> (r: UnionFind)
        ensures
            r.wf(),
            r@ == self@,
    {
        let mut r = UnionFind::default();
        r.absorb(self);
        proof {
            lemma_closure_is_equivalence(self.map@.kv_pairs());
            <UnionFind as IsBot>::lemma_bot_least(self@);
        }
        r
    }

    /// Unions every parent link of `other` into `self`, in the order the links are listed;
    /// returns whether the partition changed.
    fn absorb(&mut self, other: &UnionFind) -> (changed: bool)
        requires
            old(self).wf(),
        ensures
            final(self).wf(),
            final(self)@ == equiv_closure(old(self)@.union(other@)),
            changed == (final(self)@ != old(self)@),
            old(self)@.subset_of(final(self)@),
            final(self)@ == equiv_closure(old(self)@.union(other.parents().kv_pairs())),
    {
        let links = entries(&other.map);
        let ghost old_view = self@;
        let ghost other_links = other.map@.kv_pairs();
        let mut changed = false;
        let mut i: usize = 0;
        proof {
            lemma_closure_is_equivalence(self.map@.kv_pairs());
            lemma_closure_of_equivalence(old_view);
            assert(old_view.union(links@.take(0).to_set()) =~= old_view);
        }
        while i < links.len()
            invariant
                i <= links@.len(),
                self.wf(),
                self@ == equiv_closure(old_view.union(links@.take(i as int).to_set())),
                old_view.subset_of(self@),
                changed == (self@ != old_view),
            decreases links@.len() - i,
        {
            let (item, parent) = links[i];
            let ghost before = self@;
            let ghost before_map = self.map@;
            let step = self.union(item, parent).into_reveal();
            proof {
                let prefix = links@.take(i as int).to_set();
                lemma_closure_absorb(old_view.union(prefix), set![(item, parent)]);
                assert(before.insert((item, parent)) =~= before.union(set![(item, parent)]));
                assert(links@.take(i + 1) =~= links@.take(i as int).push((item, parent)));
                links@.take(i as int).lemma_push_to_set_commute((item, parent));
                assert(old_view.union(prefix).union(set![(item, parent)]) =~= old_view.union(
                    prefix.insert((item, parent)),
                ));
                lemma_closure_is_equivalence(before.insert((item, parent)));
                assert(before.subset_of(self@));
                if step {
                    assert(self@.contains((item, parent)));
                    assert(!old_view.contains((item, parent)));
                } else {
                    lemma_closure_is_equivalence(before_map.kv_pairs());
                    lemma_closure_of_equivalence(before);
                    assert(before.insert((item, parent)) =~= before);
                }
                if changed {
                    assert(exists|p: (u64, u64)| before.contains(p) && !old_view.contains(p)) by {
                        if !(exists|p: (u64, u64)| before.contains(p) && !old_view.contains(p)) {
                            assert(before =~= old_view);
                        }
                    }
                    let p = choose|p: (u64, u64)| before.contains(p) && !old_view.contains(p);
                    assert(self@.contains(p));
                }
            }
            changed = changed || step;
            i = i + 1;
        }
        proof {
            assert(links@.take(links@.len() as int) == links@);
            assert(self@ == equiv_closure(old_view.union(other_links)));
            lemma_closure_absorb(other_links, old_view);
            assert(other_links.union(old_view) =~= old_view.union(other_links));
            assert(equiv_closure(other_links).union(old_view) =~= old_view.union(
                equiv_closure(other_links),
            ));
        }
        changed
    }
}

/// Whether every link of `m` relates items that `other` puts in the same class.
fn links_related_in(m: &HashMap<u64, u64>, other: &UnionFind) -> (r: bool)
    requires
        other.wf(),
    ensures
        r == m@.kv_pairs().subset_of(other@),
{
    let links = entries(m);
    let mut i: usize = 0;
    while i < links.len()
        invariant
            other.wf(),
            i <= links@.len(),
            links@.to_set() == m@.kv_pairs(),
            forall|j: int| 0 <= j < i ==> #[trigger] other@.contains(links@[j]),
        decreases links@.len() - i,
    {
        let (a, b) = links[i];
        let same = other.lookup_root(a) == other.lookup_root(b);
        proof {
            lemma_closure_is_root_relation(other.map@);
        }
        if !same {
            assert(links@.to_set().contains(links@[i as int]));
            return false;
        }
        i = i + 1;
    }
    assert forall|p: (u64, u64)| #[trigger] m@.kv_pairs().contains(p) implies other@.contains(p) by {
        assert(links@.to_set().contains(p));
        let j = choose|j: int| 0 <= j < links@.len() && links@[j] == p;
        assert(other@.contains(links@[j]));
    }
    true
}

impl UnionFind {
    /// Whether the partition of `self` is at least as fine as that of `other`.
    fn finer_than(&self, other: &UnionFind) -> (r: bool)
        requires
            other.wf(),
        ensures
            r == self@.subset_of(other@),
    {
        let r = links_related_in(&self.map, other);
        proof {
            lemma_closure_is_equivalence(other.map@.kv_pairs());
            lemma_closure_is_equivalence(self.map@.kv_pairs());
            if r {
                lemma_closure_least(self.map@.kv_pairs(), other@);
            }
        }
        r
    }
}

impl LatticeEq for UnionFind {
    /// Two union-finds are equal when they describe the same partition.
    fn lattice_eq(&self, other: &Self) -> (r: bool) {
        let r = self.finer_than(other) && other.finer_than(self);
        proof {
            if self@.subset_of(other@) && other@.subset_of(self@) {
                assert(self@ =~= other@);
            }
        }
        r
    }

    fn clone_point(&self) -> (r: Self) {
        UnionFind { map: self.map.clone() }
    }
}

impl LatticeOrd for UnionFind {
    /// Below or equal when every class of `self` lies inside a class of `other`.
    fn lattice_le(&self, other: &Self) -> (r: bool) {
        let r = self.finer_than(other);
        proof {
            lemma_closure_is_equivalence(other.map@.kv_pairs());
            lemma_closure_is_equivalence(self.map@.kv_pairs());
            lemma_closure_is_equivalence(self@.union(other@));
            if r {
                assert(self@.union(other@) =~= other@);
                lemma_closure_of_equivalence(other@);
            } else {
                assert(self@.subset_of(equiv_closure(self@.union(other@))));
            }
        }
        r
    }
}

impl IsBot for UnionFind {
    open spec fn bot_point() -> Set<(u64, u64)> {
        identity_relation()
    }

    proof fn lemma_bot_least(a: Set<(u64, u64)>) {
        assert(is_equivalence(identity_relation()));
        assert(identity_relation().union(a) =~= a);
        lemma_closure_of_equivalence(a);
    }

    /// Bottom when every link is a self-link.
    fn is_bot(&self) -> (r: bool) {
        let links = entries(&self.map);
        let mut i: usize = 0;
        while i < links.len()
            invariant
                i <= links@.len(),
                links@.to_set() == self.map@.kv_pairs(),
                forall|j: int| 0 <= j < i ==> #[trigger] links@[j].0 == links@[j].1,
            decreases links@.len() - i,
        {
            let (a, b) = links[i];
            if a != b {
                proof {
                    assert(links@.to_set().contains(links@[i as int]));
                    lemma_closure_is_equivalence(self.map@.kv_pairs());
                    assert(self@.contains((a, b)));
                    assert(!identity_relation().contains((a, b)));
                }
                return false;
            }
            i = i + 1;
        }
        proof {
            assert(is_equivalence(identity_relation()));
            assert forall|p: (u64, u64)| #[trigger] self.map@.kv_pairs().contains(p) implies identity_relation().contains(p) by {
                assert(links@.to_set().contains(p));
                let j = choose|j: int| 0 <= j < links@.len() && links@[j] == p;
                assert(links@[j].0 == links@[j].1);
            }
            lemma_closure_least(self.map@.kv_pairs(), identity_relation());
            lemma_closure_is_equivalence(self.map@.kv_pairs());
            assert(self@ =~= identity_relation());
        }
        true
    }
}

impl IsTop for UnionFind {
    /// The partition with a single class cannot be held by finitely many links.
    open spec fn is_top_point(v: Set<(u64, u64)>) -> bool {
        false
    }

    proof fn lemma_top_greatest(t: Set<(u64, u64)>, a: Set<(u64, u64)>) {
    }

    fn is_top(&self) -> (r: bool) {
        false
    }
}

impl Lattice for UnionFind {

}

impl Default for UnionFind {
    /// The bottom: every item alone in its class.
    fn default() -> (r: Self)
        ensures
            r@ == identity_relation(),
            r.parents() == Map::<u64, u64>::empty(),
            r.wf(),
    {
        let r = UnionFind { map: HashMap::new() };
        proof {
            assert(is_equivalence(identity_relation()));
            lemma_closure_least(r.map@.kv_pairs(), identity_relation());
            lemma_closure_is_equivalence(r.map@.kv_pairs());
            assert(r@ =~= identity_relation());
        }
        r
    }
}

/// After `union(a, b)` two items share a class exactly when they shared one before, or
/// one of them was with `a` and the other with `b`.
pub proof fn lemma_union_fuses_classes(r: Set<(u64, u64)>, a: u64, b: u64, x: u64, y: u64)
    requires
        is_equivalence(r),
    ensures
        equiv_closure(r.insert((a, b))).contains((x, y)) == (r.contains((x, y)) || (r.contains(
            (x, a),
        ) && r.contains((y, b))) || (r.contains((x, b)) && r.contains((y, a)))),
{
    let f = Set::new(
        |p: (u64, u64)|
            r.contains(p) || (r.contains((p.0, a)) && r.contains((p.1, b))) || (r.contains(
                (p.0, b),
            ) && r.contains((p.1, a))),
    );
    assert(is_equivalence(f));
    assert(r.insert((a, b)).subset_of(f)) by {
        assert(r.contains((a, a)) && r.contains((b, b)));
    }
    lemma_closure_least(r.insert((a, b)), f);
    lemma_closure_is_equivalence(r.insert((a, b)));
    let c = equiv_closure(r.insert((a, b)));
    if r.contains((x, a)) && r.contains((y, b)) {
        assert(c.contains((x, a)) && c.contains((a, b)) && c.contains((b, y)));
        assert(c.contains((x, b)));
    }
    if r.contains((x, b)) && r.contains((y, a)) {
        assert(c.contains((x, b)) && c.contains((b, a)) && c.contains((a, y)));
        assert(c.contains((x, a)));
    }
}

/// In every state `same` is reflexive and symmetric, and transitive.
pub proof fn lemma_same_is_equivalence(uf: &UnionFind)
    ensures
        forall|a: u64| #[trigger] uf@.contains((a, a)),
        forall|a: u64, b: u64| #[trigger] uf@.contains((a, b)) == uf@.contains((b, a)),
        is_equivalence(uf@),
{
    lemma_closure_is_equivalence(uf.parents().kv_pairs());
    uf.lemma_reveal();
    assert forall|a: u64, b: u64| #[trigger] uf@.contains((a, b)) == uf@.contains((b, a)) by {
        if uf@.contains((a, b)) {
            assert(uf@.contains((b, a)));
        }
        if uf@.contains((b, a)) {
            assert(uf@.contains((a, b)));
        }
    }
}

/// Once two items share a class they share it in every later state. Every operation
/// (`union`, `merge`, `find`, `same`) leaves the old partition inside the new one, so
/// along any run of them, once `same(a, b)` answers true it keeps answering true, and
/// once `union(a, b)` answers false it keeps answering false.
pub proof fn lemma_related_stays_related(states: Seq<Set<(u64, u64)>>, a: u64, b: u64, i: int)
    requires
        forall|j: int| 0 <= j < states.len() - 1 ==> (#[trigger] states[j]).subset_of(states[j + 1]),
        0 < states.len(),
        states[0].contains((a, b)),
        0 <= i < states.len(),
    ensures
        states[i].contains((a, b)),
    decreases i,
{
    if i > 0 {
        lemma_related_stays_related(states, a, b, i - 1);
        assert(states[i - 1].subset_of(states[i]));
    }
}

/// Once `union(a, b)` has been called, every later `union(a, b)` returns false and every
/// later `same(a, b)` returns true. `states` are the partitions after that call and after
/// each later operation; `union(a, b)` on a state `s` returns `!s.contains((a, b))` and
/// `same(a, b)` returns `s.contains((a, b))`.
pub proof fn lemma_union_false_forever(states: Seq<Set<(u64, u64)>>, a: u64, b: u64, i: int)
    requires
        forall|j: int| 0 <= j < states.len() - 1 ==> (#[trigger] states[j]).subset_of(states[j + 1]),
        0 < states.len(),
        states[0].contains((a, b)),
        0 <= i < states.len(),
    ensures
        (!states[i].contains((a, b))) == false,
        states[i].contains((a, b)) == true,
{
    lemma_related_stays_related(states, a, b, i);
}

/// Adding a pair or its mirror image to an equivalence gives the same closure.
proof fn lemma_swap_pair(r: Set<(u64, u64)>, a: u64, b: u64)
    requires
        is_equivalence(r),
    ensures
        equiv_closure(r.insert((b, a))) == equiv_closure(r.insert((a, b))),
{
    lemma_closure_is_equivalence(r.insert((b, a)));
    lemma_closure_is_equivalence(r.insert((a, b)));
    let c1 = equiv_closure(r.insert((b, a)));
    let c2 = equiv_closure(r.insert((a, b)));
    assert(c1.contains((b, a)));
    assert(c1.contains((a, b)));
    assert(c2.contains((a, b)));
    assert(c2.contains((b, a)));
    lemma_closure_least(r.insert((a, b)), c1);
    lemma_closure_least(r.insert((b, a)), c2);
    assert(c1 =~= c2);
}

/// The map built by inserting `links` in order.
pub open spec fn map_of_links(links: Seq<(u64, u64)>) -> Map<u64, u64>
    decreases links.len(),
{
    if links.len() == 0 {
        Map::empty()
    } else {
        map_of_links(links.drop_last()).insert(links.last().0, links.last().1)
    }
}

} // verus!
