//! Activation functions: of one scalar, and the softmax of a vector.

use crate::error::MathError;
use crate::scalar::callable;
use crate::scalar::is_function;
use crate::scalar::lawful;
use crate::scalar::number;
use crate::scalar::can_add;
use crate::scalar::can_divide;
use crate::scalar::can_multiply;
use crate::scalar::can_negate;
use crate::scalar::can_subtract;
use crate::scalar::value_of;
use crate::scalar::Scalar;
use crate::vector::Vector;
use vstd::prelude::*;
use std::ops::Neg;
use vstd::std_specs::cmp::PartialOrdIs;
use vstd::std_specs::ops::AddSpec;
use vstd::std_specs::ops::DivSpec;
use vstd::std_specs::ops::MulSpec;
use vstd::std_specs::ops::NegSpec;
use vstd::std_specs::ops::SubSpec;

verus! {

/// `max(x, 0)`.
pub open spec fn relu_spec<T: Scalar>(x: T) -> T {
    if x.is_gt(&number::<T>(0)) {
        x
    } else {
        number::<T>(0)
    }
}

/// The rectifier: `x` where it is positive, zero elsewhere.
pub fn relu<T: Scalar>(x: T) -> (y: T)
    ensures
        lawful::<T>() ==> y == relu_spec(x),
{
    let zero = T::from(0u8);
    if x > zero {
        x
    } else {
        zero
    }
}

/// The logistic function in its two-branch form: `1 / (1 + e^-x)` from zero
/// upwards and `e^x / (1 + e^x)` below, so that the exponential is never
/// taken of a positive argument.
pub open spec fn sigmoid_spec<T: Scalar, E: Fn(T) -> T>(x: T, exp: &E) -> T {
    let one = number::<T>(1);
    if x.is_ge(&number::<T>(0)) {
        one.div_spec(one.add_spec(value_of(exp, x.neg_spec())))
    } else {
        let z = value_of(exp, x);
        z.div_spec(one.add_spec(z))
    }
}

/// The logistic function of `x`, with `exp` as the exponential.
pub fn sigmoid<T: Scalar, E: Fn(T) -> T>(x: T, exp: &E) -> (y: T)
    requires
        can_negate::<T>(),
        can_add::<T>(),
        can_divide::<T>(),
        callable(exp),
    ensures
        lawful::<T>() && is_function(exp) ==> y == sigmoid_spec(x, exp),
{
    let one = T::from(1u8);
    let zero = T::from(0u8);
    if x >= zero {
        let z = exp(x.neg());
        one / (one + z)
    } else {
        let z = exp(x);
        z / (one + z)
    }
}

/// The slope of the logistic function at the point where its value is `y`:
/// `y * (1 - y)`.
pub open spec fn derivative_spec<T: Scalar>(y: T) -> T {
    y.mul_spec(number::<T>(1).sub_spec(y))
}

/// The slope of the logistic function, computed from its value `y` rather
/// than from its argument.
pub fn derivative<T: Scalar>(y: T) -> (d: T)
    requires
        can_multiply::<T>(),
        can_subtract::<T>(),
    ensures
        lawful::<T>() ==> d == derivative_spec(y),
{
    y * (T::from(1u8) - y)
}

/// The hyperbolic tangent, cut off at one beyond ten and at minus one below
/// minus ten, and `(e^x - e^-x) / (e^x + e^-x)` between.
pub open spec fn tanh_spec<T: Scalar, E: Fn(T) -> T>(x: T, exp: &E) -> T {
    let ten = number::<T>(10);
    if x.is_gt(&ten) {
        number::<T>(1)
    } else if x.is_lt(&ten.neg_spec()) {
        number::<T>(1).neg_spec()
    } else {
        let up = value_of(exp, x);
        let down = value_of(exp, x.neg_spec());
        up.sub_spec(down).div_spec(up.add_spec(down))
    }
}

/// The hyperbolic tangent of `x`, with `exp` as the exponential. Beyond ten
/// in either direction the result is the limit itself and `exp` is not
/// called.
pub fn tanh<T: Scalar, E: Fn(T) -> T>(x: T, exp: &E) -> (y: T)
    requires
        can_negate::<T>(),
        can_subtract::<T>(),
        can_add::<T>(),
        can_divide::<T>(),
        callable(exp),
    ensures
        lawful::<T>() && is_function(exp) ==> y == tanh_spec(x, exp),
{
    let ten = T::from(10u8);
    if x > ten {
        T::from(1u8)
    } else if x < ten.neg() {
        T::from(1u8).neg()
    } else {
        let up = exp(x);
        let down = exp(x.neg());
        (up - down) / (up + down)
    }
}

/// The largest of the first `n` elements of `s`: the first element, replaced
/// in turn by each later one that is greater than the largest before it.
pub open spec fn max_of<T: Scalar>(s: Seq<T>, n: nat) -> T
    decreases n,
{
    if n <= 1 {
        s[0]
    } else {
        let before = max_of(s, (n - 1) as nat);
        if s[n - 1].is_gt(&before) {
            s[n - 1]
        } else {
            before
        }
    }
}

/// The exponential of element `i` of `s` after the largest element of `s` was
/// subtracted from it.
pub open spec fn shifted_exp<T: Scalar, E: Fn(T) -> T>(s: Seq<T>, exp: &E, i: int) -> T {
    value_of(exp, s[i].sub_spec(max_of(s, s.len())))
}

/// The sum of the first `n` shifted exponentials of `s`, added up from zero
/// in the order of the indices.
pub open spec fn shifted_exp_sum<T: Scalar, E: Fn(T) -> T>(s: Seq<T>, exp: &E, n: nat) -> T
    decreases n,
{
    if n == 0 {
        number::<T>(0)
    } else {
        shifted_exp_sum(s, exp, (n - 1) as nat).add_spec(shifted_exp(s, exp, n - 1))
    }
}

/// Each shifted exponential of `s` divided by the sum of them all.
pub open spec fn softmax_spec<T: Scalar, E: Fn(T) -> T>(s: Seq<T>, exp: &E) -> Seq<T> {
    Seq::new(s.len(), |i: int| shifted_exp(s, exp, i).div_spec(shifted_exp_sum(s, exp, s.len())))
}

/// The softmax of a vector that has at least one element, with `exp` as the
/// exponential. The largest element is subtracted from each before the
/// exponential is taken. The empty vector is refused.
pub fn softmax<T: Scalar, E: Fn(T) -> T>(vector: &Vector<T>, exp: &E) -> (r: Result<
    Vector<T>,
    MathError,
>)
    requires
        can_subtract::<T>(),
        can_add::<T>(),
        can_divide::<T>(),
        callable(exp),
    ensures
        match r {
            Ok(p) => {
                &&& vector@.len() > 0
                &&& p@.len() == vector@.len()
                &&& lawful::<T>() && is_function(exp) ==> p@ == softmax_spec(vector@, exp)
            },
            Err(e) => vector@.len() == 0 && e == MathError::EmptyInput,
        },
{
    let input = vector.elements();
    let n = input.len();
    if n == 0 {
        return Err(MathError::EmptyInput);
    }
    let mut max = input[0];
    let mut i: usize = 1;
    while i < n
        invariant
            n == input@.len(),
            1 <= i <= n,
            lawful::<T>() ==> max == max_of(input@, i as nat),
        decreases n - i,
    {
        if input[i] > max {
            max = input[i];
        }
        i += 1;
    }
    let mut shifted: Vec<T> = Vec::new();
    let mut sum = T::from(0u8);
    let mut i: usize = 0;
    while i < n
        invariant
            can_subtract::<T>(),
            can_add::<T>(),
            callable(exp),
            n == input@.len(),
            i <= n,
            shifted@.len() == i,
            lawful::<T>() ==> max == max_of(input@, n as nat),
            lawful::<T>() && is_function(exp) ==> forall|k: int|
                0 <= k < i ==> shifted@[k] == shifted_exp(input@, exp, k),
            lawful::<T>() && is_function(exp) ==> sum == shifted_exp_sum(input@, exp, i as nat),
        decreases n - i,
    {
        let e = exp(input[i] - max);
        shifted.push(e);
        sum = sum + e;
        i += 1;
    }
    let mut out: Vec<T> = Vec::new();
    let mut i: usize = 0;
    while i < n
        invariant
            can_divide::<T>(),
            n == input@.len(),
            n == shifted@.len(),
            i <= n,
            out@.len() == i,
            lawful::<T>() && is_function(exp) ==> forall|k: int|
                0 <= k < n ==> shifted@[k] == shifted_exp(input@, exp, k),
            lawful::<T>() && is_function(exp) ==> sum == shifted_exp_sum(input@, exp, n as nat),
            lawful::<T>() && is_function(exp) ==> forall|k: int|
                0 <= k < i ==> out@[k] == shifted_exp(input@, exp, k).div_spec(
                    shifted_exp_sum(input@, exp, n as nat),
                ),
        decreases n - i,
    {
        out.push(shifted[i] / sum);
        i += 1;
    }
    Ok(Vector::new(out))
}

} // verus!
