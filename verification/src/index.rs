use vstd::prelude::*;

verus! {

/// The integer types that can index the components of a vector.
///
/// An index is ordered by its `rank`, a non-negative integer: two indices
/// with the same rank are the same index.
pub trait Index: Copy + Sized {
    /// The position of `self` in the index order.
    spec fn rank(self) -> int;

    /// The largest rank that the type can hold.
    spec fn max_rank() -> int;

    /// Ranks are non-negative, bounded, and identify the index; every
    /// index converts into a `usize`.
    proof fn lemma_rank(a: Self, b: Self)
        ensures
            0 <= a.rank() <= Self::max_rank(),
            Self::max_rank() <= usize::MAX,
            a.rank() == b.rank() ==> a == b,
    ;

    /// `self < other`.
    fn less(&self, other: &Self) -> (r: bool)
        ensures
            r == (self.rank() < other.rank()),
    ;

    /// `self == other`.
    fn same(&self, other: &Self) -> (r: bool)
        ensures
            r == (self.rank() == other.rank()),
    ;

    /// The first index, `0`.
    fn zero() -> (r: Self)
        ensures
            r.rank() == 0,
    ;

    /// The index that follows `self`.
    fn succ(self) -> (r: Self)
        requires
            self.rank() < Self::max_rank(),
        ensures
            r.rank() == self.rank() + 1,
    ;

    /// The index of rank `n`.
    fn from_usize(n: usize) -> (r: Self)
        requires
            n <= Self::max_rank(),
        ensures
            r.rank() == n,
    ;

    /// The rank of `self` as a `usize`.
    fn to_usize(self) -> (r: usize)
        ensures
            r == self.rank(),
    ;
}

impl Index for u8 {
    open spec fn rank(self) -> int {
        self as int
    }

    open spec fn max_rank() -> int {
        u8::MAX as int
    }

    proof fn lemma_rank(a: Self, b: Self) {
    }

    fn less(&self, other: &Self) -> (r: bool) {
        *self < *other
    }

    fn same(&self, other: &Self) -> (r: bool) {
        *self == *other
    }

    fn zero() -> (r: Self) {
        0
    }

    fn succ(self) -> (r: Self) {
        self + 1
    }

    fn from_usize(n: usize) -> (r: Self) {
        n as u8
    }

    fn to_usize(self) -> (r: usize) {
        self as usize
    }
}

impl Index for u16 {
    open spec fn rank(self) -> int {
        self as int
    }

    open spec fn max_rank() -> int {
        u16::MAX as int
    }

    proof fn lemma_rank(a: Self, b: Self) {
    }

    fn less(&self, other: &Self) -> (r: bool) {
        *self < *other
    }

    fn same(&self, other: &Self) -> (r: bool) {
        *self == *other
    }

    fn zero() -> (r: Self) {
        0
    }

    fn succ(self) -> (r: Self) {
        self + 1
    }

    fn from_usize(n: usize) -> (r: Self) {
        n as u16
    }

    fn to_usize(self) -> (r: usize) {
        self as usize
    }
}

impl Index for u32 {
    open spec fn rank(self) -> int {
        self as int
    }

    open spec fn max_rank() -> int {
        u32::MAX as int
    }

    proof fn lemma_rank(a: Self, b: Self) {
    }

    fn less(&self, other: &Self) -> (r: bool) {
        *self < *other
    }

    fn same(&self, other: &Self) -> (r: bool) {
        *self == *other
    }

    fn zero() -> (r: Self) {
        0
    }

    fn succ(self) -> (r: Self) {
        self + 1
    }

    fn from_usize(n: usize) -> (r: Self) {
        n as u32
    }

    fn to_usize(self) -> (r: usize) {
        self as usize
    }
}

impl Index for usize {
    open spec fn rank(self) -> int {
        self as int
    }

    open spec fn max_rank() -> int {
        usize::MAX as int
    }

    proof fn lemma_rank(a: Self, b: Self) {
    }

    fn less(&self, other: &Self) -> (r: bool) {
        *self < *other
    }

    fn same(&self, other: &Self) -> (r: bool) {
        *self == *other
    }

    fn zero() -> (r: Self) {
        0
    }

    fn succ(self) -> (r: Self) {
        self + 1
    }

    fn from_usize(n: usize) -> (r: Self) {
        n as usize
    }

    fn to_usize(self) -> (r: usize) {
        self as usize
    }
}

} // verus!
