//! Simple singleton and fixed-size array collections.
use vstd::prelude::*;

use crate::set_union::Item;

verus! {

/// The items of `vals` whose mask entry is set, in order.
pub open spec fn masked_items<T>(mask: Seq<bool>, vals: Seq<T>) -> Seq<T>
    decreases vals.len(),
{
    if vals.len() == 0 || mask.len() == 0 {
        Seq::empty()
    } else {
        let rest = masked_items(mask.drop_last(), vals.drop_last());
        if mask.last() {
            rest.push(vals.last())
        } else {
            rest
        }
    }
}

/// Index of the first item of `s` equal to `x`, if any.
pub open spec fn first_index_of<T>(s: Seq<T>, x: T) -> Option<int> {
    if s.contains(x) {
        Some(choose|i: int| 0 <= i < s.len() && s[i] == x && forall|j: int| 0 <= j < i ==> s[j] != x)
    } else {
        None
    }
}

/// A singleton wrapper.
#[derive(Debug, Clone, Copy, PartialEq, Eq, PartialOrd, Ord, Hash)]
pub struct Single<T>(pub T);

impl<T> Single<T> {
    /// Wraps `value`.
    pub fn from_value(value: T) -> (r: Self)
        ensures
            r.0 == value,
    {
        Single(value)
    }

    /// The one item.
    pub fn into_vec(self) -> (r: Vec<T>)
        ensures
            r@ == seq![self.0],
    {
        let mut v = Vec::new();
        v.push(self.0);
        v
    }
}

/// A wrapper around an item, representing a singleton set.
#[derive(Debug, Clone, Copy, PartialEq, Eq, PartialOrd, Ord, Hash)]
pub struct SingletonSet<T>(pub T);

impl<T> SingletonSet<T> {
    /// The set holding only `value`.
    pub fn from_value(value: T) -> (r: Self)
        ensures
            r.0 == value,
    {
        SingletonSet(value)
    }

    /// Always one.
    pub fn len(&self) -> (r: usize)
        ensures
            r == 1,
    {
        1
    }

    /// The item, when it equals `key`.
    pub fn get(&self, key: &T) -> (r: Option<&T>)
        where T: Item,
        ensures
            r == (if *key == self.0 { Some(&self.0) } else { None::<&T> }),
    {
        if key.same_item(&self.0) {
            Some(&self.0)
        } else {
            None
        }
    }

    /// The one item.
    pub fn into_vec(self) -> (r: Vec<T>)
        ensures
            r@ == seq![self.0],
    {
        let mut v = Vec::new();
        v.push(self.0);
        v
    }
}

/// A key-value entry, representing a singleton map.
#[derive(Debug, Clone, Copy, PartialEq, Eq, PartialOrd, Ord, Hash)]
pub struct SingletonMap<K, V>(pub K, pub V);

impl<K, V> SingletonMap<K, V> {
    /// The map sending `k` to `v`.
    pub fn from_pair(pair: (K, V)) -> (r: Self)
        ensures
            r.0 == pair.0,
            r.1 == pair.1,
    {
        let (k, v) = pair;
        SingletonMap(k, v)
    }

    /// Always one.
    pub fn len(&self) -> (r: usize)
        ensures
            r == 1,
    {
        1
    }

    /// The value, when `key` is the key.
    pub fn get(&self, key: &K) -> (r: Option<&V>)
        where K: Item,
        ensures
            r == (if *key == self.0 { Some(&self.1) } else { None::<&V> }),
    {
        if key.same_item(&self.0) {
            Some(&self.1)
        } else {
            None
        }
    }

    /// The key and the value, when `key` is the key.
    pub fn get_key_value(&self, key: &K) -> (r: Option<(&K, &V)>)
        where K: Item,
        ensures
            r == (if *key == self.0 { Some((&self.0, &self.1)) } else { None::<(&K, &V)> }),
    {
        if key.same_item(&self.0) {
            Some((&self.0, &self.1))
        } else {
            None
        }
    }

    /// The one entry.
    pub fn into_vec(self) -> (r: Vec<(K, V)>)
        ensures
            r@ == seq![(self.0, self.1)],
    {
        let mut v = Vec::new();
        v.push((self.0, self.1));
        v
    }
}

/// A fixed-size array wrapper.
#[derive(Debug, Clone, Copy, PartialEq, Eq, PartialOrd, Ord, Hash)]
pub struct Array<T, const N: usize>(pub [T; N]);

impl<T, const N: usize> Array<T, N> {
    /// Wraps `value`.
    pub fn from_array(value: [T; N]) -> (r: Self)
        ensures
            r.0 == value,
    {
        Array(value)
    }

    /// The number of items, `N`.
    pub fn len(&self) -> (r: usize)
        ensures
            r == N,
            r == self.0@.len(),
    {
        N
    }

    /// The item at `key`, if `key` is in range.
    pub fn get(&self, key: usize) -> (r: Option<&T>)
        ensures
            r == (if key < N { Some(&self.0@[key as int]) } else { None::<&T> }),
    {
        if key < N {
            Some(&self.0[key])
        } else {
            None
        }
    }

    /// The items, in order.
    pub fn as_slice(&self) -> (r: &[T])
        ensures
            r@ == self.0@,
    {
        self.0.as_slice()
    }

    /// The item at `key`, for changing it in place, if `key` is in range.
    pub fn get_mut(&mut self, key: usize) -> (r: Option<&mut T>)
        ensures
            key < N ==> r is Some && *r->0 == old(self).0@[key as int] && final(self).0@
                == old(self).0@.update(key as int, *final(r->0)),
            key >= N ==> r is None && final(self).0@ == old(self).0@,
    {
        if key < N {
            Some(&mut self.0[key])
        } else {
            None
        }
    }
}

/// An array wrapper representing a fixed-size set (modulo duplicate items).
#[derive(Clone, Copy, PartialEq, Eq, PartialOrd, Ord, Hash)]
pub struct ArraySet<T, const N: usize>(pub [T; N]);

impl<T, const N: usize> ArraySet<T, N> {
    /// Wraps `value`.
    pub fn from_array(value: [T; N]) -> (r: Self)
        ensures
            r.0 == value,
    {
        ArraySet(value)
    }

    /// The number of slots, `N`, counting duplicates.
    pub fn len(&self) -> (r: usize)
        ensures
            r == N,
            r == self.0@.len(),
    {
        N
    }

    /// The first item equal to `key`, if any.
    pub fn get(&self, key: &T) -> (r: Option<&T>)
        where T: Item,
        ensures
            match first_index_of(self.0@, *key) {
                Some(i) => r == Some(&self.0@[i]),
                None => r is None,
            },
    {
        let mut i: usize = 0;
        while i < N
            invariant
                i <= N,
                N == self.0@.len(),
                forall|j: int| 0 <= j < i ==> self.0@[j] != *key,
            decreases N - i,
        {
            if self.0[i].same_item(key) {
                proof {
                    let s = self.0@;
                    assert(s.contains(*key)) by {
                        assert(s[i as int] == *key);
                    }
                    let k = first_index_of(s, *key)->0;
                    assert(k == i) by {
                        if k < i {
                            assert(s[k] != *key);
                        } else if k > i {
                            assert(s[i as int] != *key);
                        }
                    }
                }
                return Some(&self.0[i]);
            }
            i = i + 1;
        }
        assert(!self.0@.contains(*key));
        None
    }

    /// The first item equal to `key`, for changing it in place, if any.
    pub fn get_mut(&mut self, key: &T) -> (r: Option<&mut T>)
        where T: Item,
        ensures
            match first_index_of(old(self).0@, *key) {
                Some(i) => r is Some && *r->0 == old(self).0@[i] && final(self).0@ == old(self).0@.update(
                    i,
                    *final(r->0),
                ),
                None => r is None && final(self).0@ == old(self).0@,
            },
    {
        let mut i: usize = 0;
        let mut found = false;
        while i < N
            invariant_except_break
                !found,
            invariant
                i <= N,
                N == self.0@.len(),
                self.0@ == old(self).0@,
                forall|j: int| 0 <= j < i ==> self.0@[j] != *key,
            ensures
                found ==> i < N && self.0@[i as int] == *key,
                !found ==> i == N,
            decreases N - i,
        {
            if self.0[i].same_item(key) {
                found = true;
                break;
            }
            i = i + 1;
        }
        if found {
            proof {
                let s = self.0@;
                assert(s.contains(*key)) by {
                    assert(s[i as int] == *key);
                }
                let k = first_index_of(s, *key)->0;
                assert(k == i) by {
                    if k < i {
                        assert(s[k] != *key);
                    } else if k > i {
                        assert(s[i as int] != *key);
                    }
                }
            }
            Some(&mut self.0[i])
        } else {
            assert(!self.0@.contains(*key));
            None
        }
    }

    /// The items, in order.
    pub fn as_slice(&self) -> (r: &[T])
        ensures
            r@ == self.0@,
    {
        self.0.as_slice()
    }
}

/// A boolean-masked fixed-size array.
#[derive(Clone, Copy, PartialEq, Eq, Hash)]
pub struct MaskedArray<T, const N: usize> {
    /// The boolean mask.
    pub mask: [bool; N],
    /// The collection items.
    pub vals: [T; N],
}

impl<T: Copy, const N: usize> MaskedArray<T, N> {
    /// The items whose mask entry is set, in order.
    pub fn into_vec(self) -> (r: Vec<T>)
        ensures
            r@ == masked_items(self.mask@, self.vals@),
    {
        let mut out: Vec<T> = Vec::new();
        let mut i: usize = 0;
        while i < N
            invariant
                i <= N,
                N == self.mask@.len(),
                N == self.vals@.len(),
                out@ == masked_items(self.mask@.take(i as int), self.vals@.take(i as int)),
            decreases N - i,
        {
            proof {
                let m = self.mask@.take(i + 1);
                let v = self.vals@.take(i + 1);
                assert(m.drop_last() == self.mask@.take(i as int));
                assert(v.drop_last() == self.vals@.take(i as int));
            }
            if self.mask[i] {
                out.push(self.vals[i]);
            }
            i = i + 1;
        }
        assert(self.mask@.take(N as int) == self.mask@);
        assert(self.vals@.take(N as int) == self.vals@);
        out
    }
}

} // verus!
