//! Sparse and dense vectors for high dimensional vector spaces, with
//! verified contracts over their mathematical views.

mod common;
pub mod dense;
mod bounded;
pub mod index;
mod iter;
pub mod prelude;
mod scalar;
pub mod sparse;
mod storage;
mod text;
mod wrappers;

pub use index::Index;
pub use iter::{FromIteratorLossy, TryFromIterator};
pub use scalar::{is_default, zero_answer};
pub use storage::Storage;
pub use text::{is_list_of, is_pair_list_of, joined, list_text, pair_text, pair_texts};

use vstd::prelude::*;

verus! {

/// The base trait for vector types: a number of components of type
/// `Value`.
pub trait Vector {
    /// The type of the `Vector`'s scalar components.
    type Value;

    /// The number of components.
    spec fn spec_len(&self) -> nat;

    /// The number of components in `self`.
    fn len(&self) -> (n: usize)
        ensures
            n == self.spec_len(),
    ;

    /// `true` if `self.len() == 0`, otherwise `false`.
    fn is_empty(&self) -> (b: bool)
        ensures
            b == (self.spec_len() == 0),
    ;
}

/// The trait for types supporting the calculation of the dot product
pub trait Dot<Rhs = Self>: Sized {
    /// The scalar type returned by `self`'s dot product
    type Output;

    /// The inputs on which the dot product is defined.
    spec fn dot_req(&self, rhs: &Rhs) -> bool;

    /// Calculates the dot-product between `self` and `rhs`.
    fn dot(&self, rhs: &Rhs) -> Self::Output
        requires
            self.dot_req(rhs),
    ;
}

/// The trait for types supporting the calculation of distance
pub trait Distance<Rhs = Self>: Sized {
    /// The scalar type returned by `self`'s distance
    type Output;

    /// The inputs on which the distance is defined.
    spec fn distance_req(&self, rhs: &Rhs) -> bool;

    /// Calculates the squared euclidian distance between `self` and `rhs`.
    fn squared_distance(&self, rhs: &Rhs) -> Self::Output
        requires
            self.distance_req(rhs),
    ;
}

} // verus!
