//! Backing storage for vector components.

use vstd::prelude::*;

verus! {

/// Backing storage for vector components.
///
/// Implemented by `Vec<T>`.
pub trait Storage<T> {
    /// The stored elements.
    spec fn spec_elements(&self) -> Seq<T>;

    /// Returns the number of elements in the storage.
    fn len(&self) -> (n: usize)
        ensures
            n == self.spec_elements().len(),
    ;

    /// Returns true if the storage has a length of 0.
    fn is_empty(&self) -> (b: bool)
        ensures
            b == (self.spec_elements().len() == 0),
    ;

    /// Returns a slice containing the entire storage.
    fn as_slice(&self) -> (s: &[T])
        ensures
            s@ == self.spec_elements(),
    ;

    /// Returns a mutable slice containing the entire storage.
    fn as_mut_slice(&mut self) -> (s: &mut [T])
        ensures
            s@ == old(self).spec_elements(),
            final(s)@ == final(self).spec_elements(),
    ;

    /// Truncates the storage to `len` elements.
    fn truncate(&mut self, len: usize)
        ensures
            final(self).spec_elements() == if len < old(self).spec_elements().len() {
                old(self).spec_elements().take(len as int)
            } else {
                old(self).spec_elements()
            },
    ;
}

impl<T> Storage<T> for Vec<T> {
    open spec fn spec_elements(&self) -> Seq<T> {
        self@
    }

    fn len(&self) -> (n: usize) {
        Vec::len(self)
    }

    fn is_empty(&self) -> (b: bool) {
        Vec::is_empty(self)
    }

    fn as_slice(&self) -> (s: &[T]) {
        Vec::as_slice(self)
    }

    fn as_mut_slice(&mut self) -> (s: &mut [T]) {
        Vec::as_mut_slice(self)
    }

    fn truncate(&mut self, len: usize) {
        Vec::truncate(self, len);
    }
}

} // verus!
