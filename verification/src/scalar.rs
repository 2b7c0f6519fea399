//! The scalar type the library computes with, and the exponential function
//! supplied by the caller.

use std::ops::Add;
use std::ops::Div;
use std::ops::Mul;
use std::ops::Neg;
use std::ops::Sub;
use vstd::prelude::*;
use vstd::std_specs::cmp::PartialEqSpec;
use vstd::std_specs::cmp::PartialOrdSpec;
use vstd::std_specs::convert::FromSpec;
use vstd::std_specs::ops::AddSpec;
use vstd::std_specs::ops::DivSpec;
use vstd::std_specs::ops::MulSpec;
use vstd::std_specs::ops::NegSpec;
use vstd::std_specs::ops::SubSpec;

verus! {

/// A number type with the four arithmetic operators, negation, comparison and
/// a conversion from small integers. Every type that has these is a `Scalar`.
pub trait Scalar: Copy + PartialOrd + From<u8> + Add<Output = Self> + Sub<Output = Self> + Mul<
    Output = Self,
> + Div<Output = Self> + Neg<Output = Self> {

}

impl<T> Scalar for T where
    T: Copy + PartialOrd + From<u8> + Add<Output = T> + Sub<Output = T> + Mul<Output = T> + Div<
        Output = T,
    > + Neg<Output = T>,
 {
}

/// Any two scalars may be added: `+` refuses no operands.
pub open spec fn can_add<T: Scalar>() -> bool {
    forall|a: T, b: T| #[trigger] a.add_req(b)
}

/// Any scalar may be subtracted from any other: `-` refuses no operands.
pub open spec fn can_subtract<T: Scalar>() -> bool {
    forall|a: T, b: T| #[trigger] a.sub_req(b)
}

/// Any two scalars may be multiplied: `*` refuses no operands.
pub open spec fn can_multiply<T: Scalar>() -> bool {
    forall|a: T, b: T| #[trigger] a.mul_req(b)
}

/// Any scalar may be divided by any other: `/` refuses no operands, a
/// divisor of zero neither.
pub open spec fn can_divide<T: Scalar>() -> bool {
    forall|a: T, b: T| #[trigger] a.div_req(b)
}

/// Any scalar may be negated.
pub open spec fn can_negate<T: Scalar>() -> bool {
    forall|a: T| #[trigger] a.neg_req()
}

/// Every operator of `T` may be applied to all operands: none of them
/// overflows, traps or otherwise refuses an input.
pub open spec fn total<T: Scalar>() -> bool {
    &&& can_add::<T>()
    &&& can_subtract::<T>()
    &&& can_multiply::<T>()
    &&& can_divide::<T>()
    &&& can_negate::<T>()
}

/// Every operator of `T` returns what its specification function says.
pub open spec fn lawful<T: Scalar>() -> bool {
    &&& T::obeys_add_spec()
    &&& T::obeys_sub_spec()
    &&& T::obeys_mul_spec()
    &&& T::obeys_div_spec()
    &&& T::obeys_neg_spec()
    &&& T::obeys_eq_spec()
    &&& T::obeys_partial_cmp_spec()
    &&& T::obeys_from_spec()
}

/// The scalar that stands for the integer `n`.
pub open spec fn number<T: Scalar>(n: u8) -> T {
    T::from_spec(n)
}

/// `exp` accepts every argument.
pub open spec fn callable<T, E: Fn(T) -> T>(exp: &E) -> bool {
    forall|x: T| #[trigger] exp.requires((x,))
}

/// The value `exp` returns on `x`, where `exp` is a function.
pub open spec fn value_of<T, E: Fn(T) -> T>(exp: &E, x: T) -> T {
    choose|y: T| exp.ensures((x,), y)
}

/// `exp` returns one value for each argument.
pub open spec fn is_function<T, E: Fn(T) -> T>(exp: &E) -> bool {
    forall|x: T, y: T| #[trigger] exp.ensures((x,), y) ==> y == value_of(exp, x)
}

} // verus!
