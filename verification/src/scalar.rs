//! Zero tests on generic scalars.

use vstd::prelude::*;
use vstd::std_specs::cmp::PartialEqSpec;
use vstd::std_specs::ops::{AddSpec, MulSpec, SubSpec};

verus! {

/// `d` is a value that `T::default()` may return: the zero of every
/// numeric type.
pub open spec fn is_default<T: Default>(d: T) -> bool {
    call_ensures(T::default, (), d)
}

/// `z` answers whether `v` is zero: where `T`'s `==` obeys its
/// specification, whether `v` equals a default value of `T`.
pub open spec fn zero_answer<T: Default + PartialEq>(v: T, z: bool) -> bool {
    exists|d: T| #[trigger] is_default(d) && (T::obeys_eq_spec() ==> z == v.eq_spec(&d))
}

/// Whether `value` equals `T::default()`, the zero of every numeric type.
pub fn is_zero<T: Default + PartialEq>(value: &T) -> (z: bool)
    ensures
        zero_answer(*value, z),
{
    let zero = T::default();
    let z = *value == zero;
    proof {
        assert(is_default(zero));
    }
    z
}

} // verus!

verus! {

/// `+` and `*` on `T` follow their specifications (as on integers).
pub open spec fn add_mul_obeyed<T: core::ops::Add<Output = T> + core::ops::Mul<Output = T>>() -> bool {
    T::obeys_add_spec() && T::obeys_mul_spec()
}

/// `+` and `*` on `T` accept every pair of operands.
pub open spec fn add_mul_total<T: core::ops::Add<Output = T> + core::ops::Mul<Output = T>>() -> bool {
    forall|a: T, b: T| #![trigger a.add_req(b)] #![trigger a.mul_req(b)] a.add_req(b) && a.mul_req(b)
}

} // verus!

verus! {

/// `+`, `-` and `*` on `T` follow their specifications (as on integers).
pub open spec fn arith_obeyed<
    T: core::ops::Add<Output = T> + core::ops::Sub<Output = T> + core::ops::Mul<Output = T>,
>() -> bool {
    T::obeys_add_spec() && T::obeys_sub_spec() && T::obeys_mul_spec()
}

/// `+`, `-` and `*` on `T` accept every pair of operands.
pub open spec fn arith_total<
    T: core::ops::Add<Output = T> + core::ops::Sub<Output = T> + core::ops::Mul<Output = T>,
>() -> bool {
    forall|a: T, b: T|
        #![trigger a.add_req(b)]
        #![trigger a.sub_req(b)]
        #![trigger a.mul_req(b)]
        a.add_req(b) && a.sub_req(b) && a.mul_req(b)
}

/// `a * a`, added to `acc`.
pub open spec fn add_square<T: core::ops::Add<Output = T> + core::ops::Mul<Output = T>>(
    acc: T,
    a: T,
) -> T {
    acc.add_spec(a.mul_spec(a))
}

/// `a * a` and its sum with `acc` are defined.
pub open spec fn add_square_ok<T: core::ops::Add<Output = T> + core::ops::Mul<Output = T>>(
    acc: T,
    a: T,
) -> bool {
    a.mul_req(a) && acc.add_req(a.mul_spec(a))
}

} // verus!
