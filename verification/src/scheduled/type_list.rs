//! Type-level lists, written as nested pairs ending in `()`.
use vstd::prelude::*;

verus! {

/// A type-level list: `()` or `(X, T)` with `T` a list.
pub trait TypeList {}

impl TypeList for () {}

impl<X, T: TypeList> TypeList for (X, T) {}

/// Appending the list `U` to a list.
pub trait Extend<U: TypeList>: TypeList {
    /// The list with `U` appended.
    type Output;
}

impl<X, T: TypeList + Extend<U>, U: TypeList> Extend<U> for (X, T) {
    type Output = (X, <T as Extend<U>>::Output);
}

impl<U: TypeList> Extend<U> for () {
    type Output = U;
}

} // verus!
