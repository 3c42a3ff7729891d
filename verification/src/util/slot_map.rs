//! A map that hands out a fresh key for each inserted value; keys are positions.
use std::marker::PhantomData;
use vstd::prelude::*;

verus! {

/// The raw position behind a key.
#[derive(Clone, Copy, Debug, PartialEq, Eq, Structural)]
pub struct KeyData(pub usize);

/// A key type made from, and turned back into, a position.
pub trait Key: Sized + Copy {
    /// The position this key stands for.
    spec fn index(self) -> usize;

    /// The key for position `data`.
    fn from_key_data(data: KeyData) -> (r: Self)
        ensures
            r.index() == data.0,
    ;

    /// The position this key stands for.
    fn into_usize(self) -> (r: usize)
        ensures
            r == self.index(),
    ;
}

/// The key type used when none is named.
#[derive(Clone, Copy, Debug, PartialEq, Eq, Structural)]
pub struct DefaultKey(usize);

impl Key for DefaultKey {
    closed spec fn index(self) -> usize {
        self.0
    }

    fn from_key_data(data: KeyData) -> (r: Self) {
        DefaultKey(data.0)
    }

    fn into_usize(self) -> (r: usize) {
        self.0
    }
}

/// Values stored at consecutive positions, each found again by the key it was given.
pub struct SlotMap<K: Key, T> {
    items: Vec<T>,
    _key: PhantomData<K>,
}

impl<K: Key, T> View for SlotMap<K, T> {
    type V = Seq<T>;

    closed spec fn view(&self) -> Seq<T> {
        self.items@
    }
}

impl<K: Key, T> Default for SlotMap<K, T> {
    fn default() -> (r: Self)
        ensures
            r@ == Seq::<T>::empty(),
    {
        SlotMap { items: Vec::new(), _key: PhantomData }
    }
}

impl<K: Key, T> SlotMap<K, T> {
    /// An empty map.
    pub fn new() -> (r: Self)
        ensures
            r@ == Seq::<T>::empty(),
    {
        SlotMap { items: Vec::new(), _key: PhantomData }
    }

    /// Number of values.
    pub fn len(&self) -> (r: usize)
        ensures
            r == self@.len(),
    {
        self.items.len()
    }

    /// Makes the key for the next position, builds the value from it with `func`, and
    /// stores the value there. Returns the key.
    pub fn insert_with_key<F: FnOnce(K) -> T>(&mut self, func: F) -> (k: K)
        requires
            forall|k: K| k.index() == old(self)@.len() ==> call_requires(func, (k,)),
        ensures
            k.index() == old(self)@.len(),
            final(self)@.len() == old(self)@.len() + 1,
            final(self)@.drop_last() == old(self)@,
            call_ensures(func, (k,), final(self)@.last()),
    {
        let key = K::from_key_data(KeyData(self.items.len()));
        let val = func(key);
        self.items.push(val);
        assert(self.items@.drop_last() =~= old(self)@);
        key
    }

    /// Stores `value` at the next position and returns its key.
    pub fn insert(&mut self, value: T) -> (k: K)
        ensures
            k.index() == old(self)@.len(),
            final(self)@ == old(self)@.push(value),
    {
        let key = K::from_key_data(KeyData(self.items.len()));
        self.items.push(value);
        key
    }

    /// The value stored under `key`, for changing it in place.
    pub fn get_mut(&mut self, key: K) -> (r: &mut T)
        requires
            key.index() < old(self)@.len(),
        ensures
            *r == old(self)@[key.index() as int],
            final(self)@ == old(self)@.update(key.index() as int, *final(r)),
    {
        let i = key.into_usize();
        &mut self.items[i]
    }

    /// The value stored under `key`, if there is one.
    pub fn get(&self, key: K) -> (r: Option<&T>)
        ensures
            r == (if key.index() < self@.len() { Some(&self@[key.index() as int]) } else { None::<&T> }),
    {
        let i = key.into_usize();
        if i < self.items.len() {
            Some(&self.items[i])
        } else {
            None
        }
    }
}

} // verus!
