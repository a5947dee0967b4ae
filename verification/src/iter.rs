//! Construction of collections from iterators.

use vstd::prelude::*;
use vstd::std_specs::iter::IteratorSpec;

verus! {

/// The first `n` items, or all of them where there are fewer.
pub open spec fn first_at_most<A>(items: Seq<A>, n: nat) -> Seq<A> {
    items.take(if items.len() <= n { items.len() as int } else { n as int })
}

/// The next item of `iter`, as `Iterator::next` gives it, for an iterator
/// type known to the caller.
pub fn next_item<I: Iterator>(iter: &mut I) -> (r: Option<I::Item>)
    ensures
        (*final(iter)).obeys_prophetic_iter_laws() == (*old(iter)).obeys_prophetic_iter_laws(),
        (*final(iter)).obeys_prophetic_iter_laws() ==> ((*old(iter)).decrease() is Some
            <==> (*final(iter)).decrease() is Some),
        (*final(iter)).obeys_prophetic_iter_laws() ==> if (*old(iter)).remaining().len() > 0 {
            &&& (*final(iter)).remaining() == (*old(iter)).remaining().drop_first()
            &&& r == Some((*old(iter)).remaining()[0])
        } else {
            &&& (*final(iter)).remaining() == (*old(iter)).remaining()
            &&& r is None
        },
        (*final(iter)).obeys_prophetic_iter_laws() && (*old(iter)).remaining().len() > 0 && (
        *final(iter)).decrease() is Some ==> decreases_to!((*old(iter)).decrease()->0 => (*final(iter)).decrease()->0),
{
    iter.next()
}

/// Takes up to `n` items from `iter`, in order, and leaves the rest in it.
pub fn take_items<T, I: Iterator<Item = T>>(iter: &mut I, n: usize) -> (v: Vec<T>)
    ensures
        v@.len() <= n,
        (*final(iter)).obeys_prophetic_iter_laws() == (*old(iter)).obeys_prophetic_iter_laws(),
        (*old(iter)).obeys_prophetic_iter_laws() ==> {
            &&& v@ == first_at_most((*old(iter)).remaining(), n as nat)
            &&& (*final(iter)).remaining() == (*old(iter)).remaining().skip(v@.len() as int)
        },
{
    let ghost all = (*iter).remaining();
    let ghost obeys = (*iter).obeys_prophetic_iter_laws();
    let mut v: Vec<T> = Vec::new();
    let mut i: usize = 0;
    while i < n
        invariant_except_break
            i <= n,
            v@.len() == i,
            (*iter).obeys_prophetic_iter_laws() == obeys,
            obeys ==> i <= all.len() && v@ == all.take(i as int) && (*iter).remaining() == all.skip(i as int),
        ensures
            v@.len() <= n,
            (*iter).obeys_prophetic_iter_laws() == obeys,
            obeys ==> v@ == first_at_most(all, n as nat) && (*iter).remaining() == all.skip(
                v@.len() as int,
            ),
        decreases n - i,
    {
        let ghost before = (*iter).remaining();
        match iter.next() {
            Some(x) => {
                proof {
                    if obeys {
                        assert(before.len() > 0);
                        assert(x == before[0]);
                        assert(before[0] == all[i as int]);
                        assert(all.take(i + 1) =~= all.take(i as int).push(x));
                        assert(all.skip(i + 1) =~= before.drop_first());
                    }
                }
                v.push(x);
                i += 1;
            },
            None => {
                proof {
                    if obeys {
                        assert(all.skip(i as int).len() == 0);
                        assert(all.take(i as int) =~= all);
                    }
                }
                break;
            },
        }
    }
    v
}

/// A fallible equivalent of [`FromIterator`].
///
/// This trait is used when constructing a collection from an iterator
/// may fail (e.g., due to capacity limits or validation errors). The
/// associated [`Error`](TryFromIterator::Error) type captures the
/// failure mode.
pub trait TryFromIterator<T>: Sized {
    /// The type returned when construction fails.
    type Error;

    /// `r` is what building `Self` from the items `items` gives.
    spec fn tried_from(items: Seq<T>, r: Result<Self, Self::Error>) -> bool;

    /// Attempts to construct `Self` from an iterator, returning an
    /// error if the input cannot be fully consumed. Where vstd's model of
    /// iterators describes `iter`, the outcome is what its remaining items
    /// give; of other iterators nothing is stated.
    fn try_from_iter<I: Iterator<Item = T>>(iter: I) -> (r: Result<Self, Self::Error>)
        ensures
            iter.obeys_prophetic_iter_laws() ==> Self::tried_from(iter.remaining(), r),
    ;
}

/// A variant of [`FromIterator`] that silently truncates when the
/// target collection has a fixed capacity.
///
/// Unlike [`FromIterator`], this trait does not grow the underlying
/// storage. Once capacity is exhausted, remaining items are discarded
/// without error.
pub trait FromIteratorLossy<T>: Sized {
    /// `s` is what building `Self` from the items `items` gives.
    spec fn lossy_from(items: Seq<T>, s: Self) -> bool;

    /// Constructs `Self` from an iterator, discarding items beyond
    /// the collection's fixed capacity.
    fn from_iter_lossy<I: Iterator<Item = T>>(iter: I) -> (s: Self)
        ensures
            exists|items: Seq<T>|
                #[trigger] Self::lossy_from(items, s) && (iter.obeys_prophetic_iter_laws() ==> items
                    == iter.remaining()),
    ;
}

} // verus!
