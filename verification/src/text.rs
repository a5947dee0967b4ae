//! The `Debug`-style text of vectors and storages: a list between `[` and
//! `]` whose items are separated by `, `, each item the `Debug` text of a
//! component or of an `(index, value)` pair.

use vstd::prelude::*;
use vstd::string::StringExecFns;

use crate::wrappers::debug_item;

verus! {

/// `parts` one after another, separated by `, `.
pub open spec fn joined(parts: Seq<Seq<char>>) -> Seq<char>
    decreases parts.len(),
{
    if parts.len() == 0 {
        Seq::empty()
    } else if parts.len() == 1 {
        parts[0]
    } else {
        joined(parts.drop_last()) + seq![',', ' '] + parts.last()
    }
}

/// `parts` as a list: `[`, the parts separated by `, `, then `]`.
pub open spec fn list_text(parts: Seq<Seq<char>>) -> Seq<char> {
    seq!['['] + joined(parts) + seq![']']
}

/// A pair as a tuple: `(`, `a`, `, `, `b`, `)`.
pub open spec fn pair_text(a: Seq<char>, b: Seq<char>) -> Seq<char> {
    seq!['('] + a + seq![',', ' '] + b + seq![')']
}

/// The pairs `(a[k], b[k])` as tuples.
pub open spec fn pair_texts(a: Seq<Seq<char>>, b: Seq<Seq<char>>) -> Seq<Seq<char>> {
    Seq::new(a.len(), |k: int| pair_text(a[k], b[k]))
}

/// The text of `n` items as a list, whatever the text of each item is.
pub open spec fn is_list_of(r: Seq<char>, n: nat) -> bool {
    exists|parts: Seq<Seq<char>>| parts.len() == n && r == #[trigger] list_text(parts)
}

/// The text of `n` pairs as a list of tuples, whatever the text of each
/// index and value is.
pub open spec fn is_pair_list_of(r: Seq<char>, n: nat) -> bool {
    exists|a: Seq<Seq<char>>, b: Seq<Seq<char>>|
        a.len() == n && b.len() == n && r == #[trigger] list_text(pair_texts(a, b))
}

/// Appends `, ` to `s`.
fn push_separator(s: &mut String)
    ensures
        final(s)@ == old(s)@ + seq![',', ' '],
{
    let sep = ", ";
    proof {
        reveal_strlit(", ");
    }
    s.append(sep);
}

/// `[`, then `body`, then `]`.
fn bracketed(body: &String) -> (r: String)
    ensures
        r@ == seq!['['] + body@ + seq![']'],
{
    let open = "[";
    let close = "]";
    proof {
        reveal_strlit("[");
        reveal_strlit("]");
    }
    let mut r = String::from_str(open);
    r.append(body.as_str());
    r.append(close);
    r
}

/// The items of `items` as a list, each item as `Debug` renders it.
pub(crate) fn debug_list_text<T: core::fmt::Debug>(items: &[T]) -> (r: String)
    ensures
        is_list_of(r@, items@.len()),
{
    let mut body = String::new();
    let ghost mut parts: Seq<Seq<char>> = Seq::empty();
    let mut i: usize = 0;
    while i < items.len()
        invariant
            i <= items@.len(),
            parts.len() == i,
            body@ == joined(parts),
        decreases items@.len() - i,
    {
        let s = debug_item(&items[i]);
        if i > 0 {
            push_separator(&mut body);
        }
        body.append(s.as_str());
        proof {
            let old_parts = parts;
            parts = parts.push(s@);
            assert(parts.drop_last() =~= old_parts);
        }
        i += 1;
    }
    let r = bracketed(&body);
    assert(r@ == list_text(parts));
    r
}

/// `(`, the `Debug` text of `pair.0`, `, `, that of `pair.1`, then `)`.
fn debug_pair_text<Idx: core::fmt::Debug, T: core::fmt::Debug>(pair: &(Idx, T)) -> (r: (
    String,
    Ghost<Seq<char>>,
    Ghost<Seq<char>>,
))
    ensures
        r.0@ == pair_text(r.1@, r.2@),
{
    let a = debug_item(&pair.0);
    let b = debug_item(&pair.1);
    let open = "(";
    let close = ")";
    proof {
        reveal_strlit("(");
        reveal_strlit(")");
    }
    let mut s = String::from_str(open);
    s.append(a.as_str());
    push_separator(&mut s);
    s.append(b.as_str());
    s.append(close);
    (s, Ghost(a@), Ghost(b@))
}

/// The pairs of `pairs` as a list of tuples, each index and value as
/// `Debug` renders it.
pub(crate) fn debug_pair_list_text<Idx: core::fmt::Debug, T: core::fmt::Debug>(pairs: &[(Idx, T)]) -> (r:
    String)
    ensures
        is_pair_list_of(r@, pairs@.len()),
{
    let mut body = String::new();
    let ghost mut a: Seq<Seq<char>> = Seq::empty();
    let ghost mut b: Seq<Seq<char>> = Seq::empty();
    let mut i: usize = 0;
    while i < pairs.len()
        invariant
            i <= pairs@.len(),
            a.len() == i,
            b.len() == i,
            body@ == joined(pair_texts(a, b)),
        decreases pairs@.len() - i,
    {
        let (s, Ghost(ta), Ghost(tb)) = debug_pair_text(&pairs[i]);
        if i > 0 {
            push_separator(&mut body);
        }
        body.append(s.as_str());
        proof {
            let old_a = a;
            let old_b = b;
            a = a.push(ta);
            b = b.push(tb);
            assert(pair_texts(a, b).drop_last() =~= pair_texts(old_a, old_b));
        }
        i += 1;
    }
    let r = bracketed(&body);
    assert(r@ == list_text(pair_texts(a, b)));
    r
}

} // verus!
