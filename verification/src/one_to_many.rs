//! A parent-child (one-to-many) relation kept in both directions, so that only the
//! parent-to-children side needs to be stored and the other side can be rebuilt.
use vstd::prelude::*;

use crate::text::concat_all;

verus! {

/// The (child, parent) pairs of a parent-to-children list, parent by parent, children in order.
pub open spec fn child_parent_pairs<One, Many>(o2m: Seq<(One, Vec<Many>)>) -> Seq<(Many, One)> {
    concat_all(o2m.map_values(|e: (One, Vec<Many>)| e.1@.map_values(|c: Many| (c, e.0))))
}

/// A parent-child relation, by parent and by child.
pub struct OneToMany<One: Copy, Many: Copy> {
    /// Each parent with its children.
    pub one_to_many: Vec<(One, Vec<Many>)>,
    /// Each child with its parent.
    pub many_to_one: Vec<(Many, One)>,
}

impl<One: Copy, Many: Copy> OneToMany<One, Many> {
    /// The empty relation.
    pub fn new() -> (r: Self)
        ensures
            r.one_to_many@.len() == 0,
            r.many_to_one@.len() == 0,
    {
        OneToMany { one_to_many: Vec::new(), many_to_one: Vec::new() }
    }

    /// The relation given by each parent's children; the by-child side lists every
    /// (child, parent) pair, parent by parent and children in order.
    pub fn from_parent_children(parent_children: Vec<(One, Vec<Many>)>) -> (r: Self)
        ensures
            r.one_to_many == parent_children,
            r.many_to_one@ == child_parent_pairs(parent_children@),
    {
        let ghost o2m = parent_children@;
        let ghost parts = o2m.map_values(|e: (One, Vec<Many>)| e.1@.map_values(|c: Many| (c, e.0)));
        let mut child_parent: Vec<(Many, One)> = Vec::new();
        let mut i: usize = 0;
        while i < parent_children.len()
            invariant
                i <= o2m.len(),
                o2m == parent_children@,
                parts == o2m.map_values(|e: (One, Vec<Many>)| e.1@.map_values(|c: Many| (c, e.0))),
                child_parent@ == concat_all(parts.take(i as int)),
            decreases o2m.len() - i,
        {
            let p = parent_children[i].0;
            let n = parent_children[i].1.len();
            let ghost start = child_parent@;
            let mut j: usize = 0;
            while j < n
                invariant
                    i < o2m.len(),
                    o2m == parent_children@,
                    n == o2m[i as int].1@.len(),
                    p == o2m[i as int].0,
                    j <= n,
                    child_parent@ == start + o2m[i as int].1@.take(j as int).map_values(|c: Many| (c, p)),
                decreases n - j,
            {
                let c = parent_children[i].1[j];
                child_parent.push((c, p));
                assert(child_parent@ =~= start + o2m[i as int].1@.take(j + 1).map_values(|c: Many| (c, p)));
                j = j + 1;
            }
            proof {
                assert(o2m[i as int].1@.take(n as int) == o2m[i as int].1@);
                assert(parts.take(i + 1).drop_last() == parts.take(i as int));
                assert(parts.take(i + 1).last() == parts[i as int]);
                assert(parts[i as int] == o2m[i as int].1@.map_values(|c: Many| (c, p)));
            }
            i = i + 1;
        }
        assert(parts.take(o2m.len() as int) == parts);
        OneToMany { one_to_many: parent_children, many_to_one: child_parent }
    }

    /// The parent-to-children side, which determines the whole relation.
    pub fn into_parent_children(self) -> (r: Vec<(One, Vec<Many>)>)
        ensures
            r == self.one_to_many,
    {
        self.one_to_many
    }
}

impl<One: Copy, Many: Copy> Default for OneToMany<One, Many> {
    fn default() -> (r: Self)
        ensures
            r.one_to_many@.len() == 0,
            r.many_to_one@.len() == 0,
    {
        OneToMany::new()
    }
}

/// The by-child side lists exactly the pairs of the by-parent side: child `c` is listed with
/// parent `p` when, and only when, some entry of `p` has `c` among its children.
pub proof fn lemma_child_parent_pairs<One, Many>(o2m: Seq<(One, Vec<Many>)>, c: Many, p: One)
    ensures
        child_parent_pairs(o2m).contains((c, p)) <==> exists|i: int|
            0 <= i < o2m.len() && (#[trigger] o2m[i]).0 == p && o2m[i].1@.contains(c),
    decreases o2m.len(),
{
    if o2m.len() > 0 {
        let rest = o2m.drop_last();
        lemma_child_parent_pairs(rest, c, p);
        let f = |e: (One, Vec<Many>)| e.1@.map_values(|x: Many| (x, e.0));
        let parts = o2m.map_values(f);
        assert(parts.drop_last() == rest.map_values(f));
        let last = o2m.last();
        let tail = last.1@.map_values(|x: Many| (x, last.0));
        assert(parts.last() == tail);
        let whole = child_parent_pairs(o2m);
        let front = child_parent_pairs(rest);
        assert(whole == front + tail);
        if whole.contains((c, p)) {
            let k = choose|k: int| 0 <= k < whole.len() && whole[k] == (c, p);
            if k < front.len() {
                assert(front[k] == (c, p));
                let i = choose|i: int| 0 <= i < rest.len() && (#[trigger] rest[i]).0 == p && rest[i].1@.contains(c);
                assert(o2m[i] == rest[i]);
            } else {
                let j = k - front.len();
                assert(tail[j] == (c, p));
                assert(last.1@[j] == c);
                assert(o2m[o2m.len() - 1] == last);
                assert(last.1@.contains(c));
            }
        }
        if exists|i: int| 0 <= i < o2m.len() && (#[trigger] o2m[i]).0 == p && o2m[i].1@.contains(c) {
            let i = choose|i: int| 0 <= i < o2m.len() && (#[trigger] o2m[i]).0 == p && o2m[i].1@.contains(c);
            if i < rest.len() {
                assert(rest[i] == o2m[i]);
                let k = choose|k: int| 0 <= k < front.len() && front[k] == (c, p);
                assert(whole[k] == (c, p));
            } else {
                assert(o2m[i] == last);
                let j = choose|j: int| 0 <= j < last.1@.len() && last.1@[j] == c;
                assert(tail[j] == (c, p));
                assert(whole[front.len() + j] == (c, p));
            }
        }
    }
}

} // verus!
