# vectors

Sparse and dense vectors for high dimensional vector spaces, written in
Verus: each operation carries a contract over the mathematical view of its
vectors, and Verus proves the code against it.

## Layout

- `src/` — the verified library.
  - `dense` — dense vectors (`GenericDenseVec` over `Vec`-backed or
    fixed-capacity storage, and the plain `heap` and `stack` variants),
    their iterators, component-wise arithmetic, dot products and squared
    distances.
  - `sparse` — sparse vectors of strictly increasing `(index, value)`
    entries: validated and canonicalizing construction, outer and inner
    joins, entry-wise arithmetic that keeps the canonical form, merge and
    galloping dot products, squared distances, and the laws that relate
    sparse results to dense ones.
  - `index` — the integer types that index components.
- `tests/` — the library's tests.
- `app/` — euclidean distances (a square root of the verified squared
  distance) and error types that print.

## Fixed-capacity storage

`DenseArrayVecStorage<T, N>` and `SparseArrayVecStorage<Idx, T, N>` keep
their contents in a `Vec` whose length is at most `N`, stated as their
invariant, rather than in an `arrayvec::ArrayVec`: a contract can speak of
what a `Vec` holds, while the contents of an `ArrayVec` of any item type
could only be named by a generic specification function. Construction from
an iterator reads only as far as it needs: a lossy or canonical build stops
after `N` items, and validation stops at the first index out of order. `From<ArrayVec<T, N>>` remains
for dense storage.

## Zero

A value is zero when it equals `T::default()`, which is `0` for every
numeric type.
