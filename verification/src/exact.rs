//! What the library computes where the scalar type computes exactly.
//!
//! The contracts of the library say which operators are applied to which
//! operands, in which order. The laws of this module read the scalars as real
//! numbers and say what comes out where each operator is the operation of the
//! real numbers that it stands for. No floating-point type computes so: of
//! such a type the laws say what its results approximate.

use crate::activation::derivative_spec;
use crate::activation::max_of;
use crate::activation::relu_spec;
use crate::activation::shifted_exp;
use crate::activation::shifted_exp_sum;
use crate::activation::sigmoid_spec;
use crate::activation::softmax_spec;
use crate::activation::tanh_spec;
use crate::matrix::determinant_of;
use crate::matrix::flat_index;
use crate::matrix::inverse_of;
use crate::matrix::product_entry;
use crate::matrix::singular;
use crate::matrix::Matrix;
use crate::network::weighted_sum;
use crate::network::Neuron;
use crate::scalar::number;
use crate::scalar::value_of;
use crate::scalar::Scalar;
use std::cmp::Ordering;
use vstd::prelude::*;
use vstd::std_specs::cmp::PartialEqSpec;
use vstd::std_specs::cmp::PartialOrdIs;
use vstd::std_specs::cmp::PartialOrdSpec;
use vstd::std_specs::ops::AddSpec;
use vstd::std_specs::ops::DivSpec;
use vstd::std_specs::ops::MulSpec;
use vstd::std_specs::ops::NegSpec;
use vstd::std_specs::ops::SubSpec;

verus! {

/// The order of two real numbers.
pub open spec fn order_of(a: real, b: real) -> Option<Ordering> {
    if a < b {
        Some(Ordering::Less)
    } else if a == b {
        Some(Ordering::Equal)
    } else {
        Some(Ordering::Greater)
    }
}

/// Read through `value`, two scalars compare as their values do.
pub open spec fn compares_exactly<T: Scalar>(value: spec_fn(T) -> real) -> bool {
    &&& forall|a: T, b: T| #[trigger] a.eq_spec(&b) <==> value(a) == value(b)
    &&& forall|a: T, b: T| #[trigger] a.partial_cmp_spec(&b) == order_of(value(a), value(b))
}

/// Read through `value`, the scalar that stands for an integer has that
/// integer as its value.
pub open spec fn counts_exactly<T: Scalar>(value: spec_fn(T) -> real) -> bool {
    forall|n: u8| #[trigger] value(number::<T>(n)) == n as real
}

/// Read through `value`, the scalars are real numbers and the operators of
/// `T` are the operations of the real numbers: `T` computes exactly.
pub open spec fn exact<T: Scalar>(value: spec_fn(T) -> real) -> bool {
    &&& counts_exactly::<T>(value)
    &&& compares_exactly::<T>(value)
    &&& forall|a: T, b: T| #[trigger] value(a.add_spec(b)) == value(a) + value(b)
    &&& forall|a: T, b: T| #[trigger] value(a.sub_spec(b)) == value(a) - value(b)
    &&& forall|a: T, b: T| #[trigger] value(a.mul_spec(b)) == value(a) * value(b)
    &&& forall|a: T, b: T|
        value(b) != 0real ==> #[trigger] value(a.div_spec(b)) == value(a) / value(b)
    &&& forall|a: T| #[trigger] value(a.neg_spec()) == -value(a)
}

/// Read through `value`, `exp` has what these laws need of the exponential
/// function: it is positive, it is one at zero, it grows with its argument,
/// and its values at a number and at the negation of that number multiply to
/// one.
pub open spec fn exponential<T, E: Fn(T) -> T>(exp: &E, value: spec_fn(T) -> real) -> bool {
    &&& forall|x: T| #[trigger] value(value_of(exp, x)) > 0real
    &&& forall|x: T| value(x) == 0real ==> #[trigger] value(value_of(exp, x)) == 1real
    &&& forall|x: T, y: T|
        value(x) <= value(y) ==> #[trigger] value(value_of(exp, x)) <= #[trigger] value(
            value_of(exp, y),
        )
    &&& forall|x: T, y: T|
        value(x) < value(y) ==> #[trigger] value(value_of(exp, x)) < #[trigger] value(
            value_of(exp, y),
        )
    &&& forall|x: T, y: T|
        value(x) == -value(y) ==> #[trigger] value(value_of(exp, x)) * #[trigger] value(
            value_of(exp, y),
        ) == 1real
}

/// Multiplication of real numbers is associative.
proof fn lemma_mul_assoc(a: real, b: real, c: real)
    ensures
        a * (b * c) == (a * b) * c,
{
    assert(a * (b * c) == (a * b) * c) by (nonlinear_arith);
}

/// Multiplication of real numbers distributes over addition.
proof fn lemma_mul_distributes(a: real, b: real, c: real)
    ensures
        a * c + b * c == (a + b) * c,
{
    assert(a * c + b * c == (a + b) * c) by (nonlinear_arith);
}

/// Multiplication of real numbers commutes, and a sign may leave a product.
proof fn lemma_mul_signs(a: real, b: real)
    ensures
        a * (-b) == -(a * b),
        (-a) * b == -(a * b),
        a * b == b * a,
{
    assert(a * (-b) == -(a * b) && (-a) * b == -(a * b) && a * b == b * a) by (nonlinear_arith);
}

/// The sign of a product of real numbers.
proof fn lemma_mul_order(a: real, b: real)
    ensures
        a > 0real && b > 0real ==> a * b > 0real,
        a >= 0real && b >= 0real ==> a * b >= 0real,
        a <= 0real && b >= 0real ==> a * b <= 0real,
{
    assert((a > 0real && b > 0real ==> a * b > 0real) && (a >= 0real && b >= 0real ==> a * b
        >= 0real) && (a <= 0real && b >= 0real ==> a * b <= 0real)) by (nonlinear_arith);
}

/// A real number that is not zero, multiplied by its reciprocal, gives one.
proof fn lemma_reciprocal(x: real)
    requires
        x != 0real,
    ensures
        x * (1real / x) == 1real,
{
    assert(x * (1real / x) == 1real) by (nonlinear_arith)
        requires
            x != 0real,
    ;
}

/// With exact arithmetic, the rectifier is the larger of its argument and
/// zero, and so never negative.
pub proof fn lemma_relu_is_the_larger_of_its_argument_and_zero<T: Scalar>(
    x: T,
    value: spec_fn(T) -> real,
)
    requires
        exact::<T>(value),
    ensures
        value(relu_spec(x)) == (if value(x) > 0real {
            value(x)
        } else {
            0real
        }),
        value(relu_spec(x)) >= 0real,
{
    assert(value(number::<T>(0)) == 0real);
    assert(x.is_gt(&number::<T>(0)) <==> value(x) > 0real);
}

/// With exact arithmetic, both branches of the logistic function give
/// `1 / (1 + e^-x)`.
pub proof fn lemma_sigmoid_is_the_logistic_function<T: Scalar, E: Fn(T) -> T>(
    x: T,
    exp: &E,
    value: spec_fn(T) -> real,
)
    requires
        exact::<T>(value),
        exponential(exp, value),
    ensures
        value(sigmoid_spec(x, exp)) == 1real / (1real + value(value_of(exp, x.neg_spec()))),
{
    let one = number::<T>(1);
    assert(value(one) == 1real);
    let down = value_of(exp, x.neg_spec());
    assert(value(down) > 0real);
    assert(value(one.add_spec(down)) == 1real + value(down));
    if !x.is_ge(&number::<T>(0)) {
        let up = value_of(exp, x);
        assert(value(up) > 0real);
        assert(value(one.add_spec(up)) == 1real + value(up));
        assert(value(x.neg_spec()) == -value(x));
        assert(value(down) * value(up) == 1real);
        let u = value(up);
        let d = value(down);
        assert(u / (1real + u) == 1real / (1real + d)) by (nonlinear_arith)
            requires
                u > 0real,
                d > 0real,
                d * u == 1real,
        ;
    }
}

/// With exact arithmetic, the logistic function lies strictly between zero
/// and one.
pub proof fn lemma_sigmoid_between_zero_and_one<T: Scalar, E: Fn(T) -> T>(
    x: T,
    exp: &E,
    value: spec_fn(T) -> real,
)
    requires
        exact::<T>(value),
        exponential(exp, value),
    ensures
        0real < value(sigmoid_spec(x, exp)) < 1real,
{
    let one = number::<T>(1);
    assert(value(one) == 1real);
    if x.is_ge(&number::<T>(0)) {
        let z = value_of(exp, x.neg_spec());
        assert(value(z) > 0real);
        assert(value(one.add_spec(z)) == 1real + value(z));
        let d = 1real + value(z);
        assert(0real < 1real / d < 1real) by (nonlinear_arith)
            requires
                d > 1real,
        ;
    } else {
        let z = value_of(exp, x);
        assert(value(z) > 0real);
        assert(value(one.add_spec(z)) == 1real + value(z));
        let v = value(z);
        assert(0real < v / (1real + v) < 1real) by (nonlinear_arith)
            requires
                v > 0real,
        ;
    }
}

/// With exact arithmetic, the logistic function of zero is a half.
pub proof fn lemma_sigmoid_of_zero_is_a_half<T: Scalar, E: Fn(T) -> T>(
    x: T,
    exp: &E,
    value: spec_fn(T) -> real,
)
    requires
        exact::<T>(value),
        exponential(exp, value),
        value(x) == 0real,
    ensures
        value(sigmoid_spec(x, exp)) == 1real / 2real,
{
    let one = number::<T>(1);
    let z = value_of(exp, x.neg_spec());
    assert(value(one) == 1real);
    assert(value(number::<T>(0)) == 0real);
    assert(x.is_ge(&number::<T>(0)));
    assert(value(x.neg_spec()) == 0real);
    assert(value(z) == 1real);
    assert(value(one.add_spec(z)) == 2real);
}

/// With exact arithmetic, the logistic function is below a half for a
/// negative argument and at least a half for every other.
proof fn lemma_sigmoid_around_a_half<T: Scalar, E: Fn(T) -> T>(
    x: T,
    exp: &E,
    value: spec_fn(T) -> real,
)
    requires
        exact::<T>(value),
        exponential(exp, value),
    ensures
        value(x) < 0real ==> value(sigmoid_spec(x, exp)) < 1real / 2real,
        value(x) >= 0real ==> value(sigmoid_spec(x, exp)) >= 1real / 2real,
{
    let one = number::<T>(1);
    let zero = number::<T>(0);
    assert(value(one) == 1real);
    assert(value(zero) == 0real);
    assert(value(value_of(exp, zero)) == 1real);
    if x.is_ge(&zero) {
        let z = value_of(exp, x.neg_spec());
        assert(value(x.neg_spec()) <= value(zero));
        assert(value(z) <= value(value_of(exp, zero)));
        assert(value(z) > 0real);
        assert(value(one.add_spec(z)) == 1real + value(z));
        let v = value(z);
        assert(1real / (1real + v) >= 1real / 2real) by (nonlinear_arith)
            requires
                0real < v <= 1real,
        ;
    } else {
        let z = value_of(exp, x);
        assert(value(x) < value(zero));
        assert(value(z) < value(value_of(exp, zero)));
        assert(value(z) > 0real);
        assert(value(one.add_spec(z)) == 1real + value(z));
        let v = value(z);
        assert(v / (1real + v) < 1real / 2real) by (nonlinear_arith)
            requires
                0real < v < 1real,
        ;
    }
}

/// With exact arithmetic, the logistic function grows with its argument.
pub proof fn lemma_sigmoid_increases<T: Scalar, E: Fn(T) -> T>(
    x: T,
    y: T,
    exp: &E,
    value: spec_fn(T) -> real,
)
    requires
        exact::<T>(value),
        exponential(exp, value),
    ensures
        value(x) <= value(y) ==> value(sigmoid_spec(x, exp)) <= value(sigmoid_spec(y, exp)),
        value(x) < value(y) ==> value(sigmoid_spec(x, exp)) < value(sigmoid_spec(y, exp)),
{
    let one = number::<T>(1);
    let zero = number::<T>(0);
    assert(value(one) == 1real);
    assert(value(zero) == 0real);
    lemma_sigmoid_around_a_half(x, exp, value);
    lemma_sigmoid_around_a_half(y, exp, value);
    if value(x) <= value(y) {
        if x.is_ge(&zero) {
            assert(y.is_ge(&zero));
            let p = value_of(exp, x.neg_spec());
            let q = value_of(exp, y.neg_spec());
            assert(value(y.neg_spec()) <= value(x.neg_spec()));
            assert(value(q) <= value(p));
            assert(value(x) < value(y) ==> value(y.neg_spec()) < value(x.neg_spec()));
            assert(value(x) < value(y) ==> value(q) < value(p));
            assert(value(p) > 0real && value(q) > 0real);
            assert(value(one.add_spec(p)) == 1real + value(p));
            assert(value(one.add_spec(q)) == 1real + value(q));
            let a = value(p);
            let b = value(q);
            assert(1real / (1real + a) <= 1real / (1real + b)) by (nonlinear_arith)
                requires
                    0real < b <= a,
            ;
            assert(b < a ==> 1real / (1real + a) < 1real / (1real + b)) by (nonlinear_arith)
                requires
                    0real < b <= a,
            ;
        } else if !y.is_ge(&zero) {
            let p = value_of(exp, x);
            let q = value_of(exp, y);
            assert(value(p) <= value(q));
            assert(value(x) < value(y) ==> value(p) < value(q));
            assert(value(p) > 0real && value(q) > 0real);
            assert(value(one.add_spec(p)) == 1real + value(p));
            assert(value(one.add_spec(q)) == 1real + value(q));
            let a = value(p);
            let b = value(q);
            assert(a / (1real + a) <= b / (1real + b)) by (nonlinear_arith)
                requires
                    0real < a <= b,
            ;
            assert(a < b ==> a / (1real + a) < b / (1real + b)) by (nonlinear_arith)
                requires
                    0real < a <= b,
            ;
        }
    }
}

/// With exact arithmetic, the hyperbolic tangent lies between minus one and
/// one.
pub proof fn lemma_tanh_between_minus_one_and_one<T: Scalar, E: Fn(T) -> T>(
    x: T,
    exp: &E,
    value: spec_fn(T) -> real,
)
    requires
        exact::<T>(value),
        exponential(exp, value),
    ensures
        -1real <= value(tanh_spec(x, exp)) <= 1real,
{
    let one = number::<T>(1);
    assert(value(one) == 1real);
    assert(value(one.neg_spec()) == -1real);
    let up = value_of(exp, x);
    let down = value_of(exp, x.neg_spec());
    assert(value(up) > 0real && value(down) > 0real);
    assert(value(up.sub_spec(down)) == value(up) - value(down));
    assert(value(up.add_spec(down)) == value(up) + value(down));
    let u = value(up);
    let d = value(down);
    assert(-1real <= (u - d) / (u + d) <= 1real) by (nonlinear_arith)
        requires
            u > 0real,
            d > 0real,
    ;
}

/// With exact arithmetic, the hyperbolic tangent of zero is zero.
pub proof fn lemma_tanh_of_zero_is_zero<T: Scalar, E: Fn(T) -> T>(
    x: T,
    exp: &E,
    value: spec_fn(T) -> real,
)
    requires
        exact::<T>(value),
        exponential(exp, value),
        value(x) == 0real,
    ensures
        value(tanh_spec(x, exp)) == 0real,
{
    let ten = number::<T>(10);
    assert(value(ten) == 10real);
    assert(value(ten.neg_spec()) == -10real);
    assert(!x.is_gt(&ten) && !x.is_lt(&ten.neg_spec()));
    let up = value_of(exp, x);
    let down = value_of(exp, x.neg_spec());
    assert(value(x.neg_spec()) == 0real);
    assert(value(up) == 1real && value(down) == 1real);
    assert(value(up.sub_spec(down)) == 0real);
    assert(value(up.add_spec(down)) == 2real);
}

/// With exact arithmetic, the hyperbolic tangent is odd: at two arguments
/// that are each the negation of the other, its values are too.
pub proof fn lemma_tanh_is_odd<T: Scalar, E: Fn(T) -> T>(
    x: T,
    y: T,
    exp: &E,
    value: spec_fn(T) -> real,
)
    requires
        exact::<T>(value),
        exponential(exp, value),
        value(y) == -value(x),
    ensures
        value(tanh_spec(y, exp)) == -value(tanh_spec(x, exp)),
{
    let one = number::<T>(1);
    let ten = number::<T>(10);
    assert(value(one) == 1real);
    assert(value(one.neg_spec()) == -1real);
    assert(value(ten) == 10real);
    assert(value(ten.neg_spec()) == -10real);
    assert(x.is_gt(&ten) <==> y.is_lt(&ten.neg_spec()));
    assert(x.is_lt(&ten.neg_spec()) <==> y.is_gt(&ten));
    if !x.is_gt(&ten) && !x.is_lt(&ten.neg_spec()) {
        let up = value_of(exp, x);
        let down = value_of(exp, x.neg_spec());
        let back = value_of(exp, y);
        let forth = value_of(exp, y.neg_spec());
        assert(value(x.neg_spec()) == value(y));
        assert(value(y.neg_spec()) == value(x));
        assert(value(back) <= value(down) && value(down) <= value(back));
        assert(value(forth) <= value(up) && value(up) <= value(forth));
        assert(value(up) > 0real && value(down) > 0real);
        assert(value(up.sub_spec(down)) == value(up) - value(down));
        assert(value(up.add_spec(down)) == value(up) + value(down));
        assert(value(back.sub_spec(forth)) == value(back) - value(forth));
        assert(value(back.add_spec(forth)) == value(back) + value(forth));
        let u = value(up);
        let d = value(down);
        assert((d - u) / (d + u) == -((u - d) / (u + d))) by (nonlinear_arith)
            requires
                u > 0real,
                d > 0real,
        ;
    }
}

/// The sum of the values of the first `n` elements of `s`.
pub open spec fn sum_of_values<T>(s: Seq<T>, value: spec_fn(T) -> real, n: nat) -> real
    decreases n,
{
    if n == 0 {
        0real
    } else {
        sum_of_values(s, value, (n - 1) as nat) + value(s[n - 1])
    }
}

/// With exact arithmetic, the largest of the first `n` elements is at least
/// each of them.
proof fn lemma_max_is_largest<T: Scalar>(s: Seq<T>, value: spec_fn(T) -> real, n: nat, i: int)
    requires
        exact::<T>(value),
        0 <= i < n <= s.len(),
    ensures
        value(s[i]) <= value(max_of(s, n)),
    decreases n,
{
    if n > 1 {
        let before = max_of(s, (n - 1) as nat);
        assert(s[n - 1].is_gt(&before) <==> value(s[n - 1]) > value(before));
        if i < n - 1 {
            lemma_max_is_largest(s, value, (n - 1) as nat, i);
        }
    }
}

/// With exact arithmetic, the softmax takes the exponential of no positive
/// number.
pub proof fn lemma_softmax_shifts_below_zero<T: Scalar>(
    s: Seq<T>,
    value: spec_fn(T) -> real,
    i: int,
)
    requires
        exact::<T>(value),
        0 <= i < s.len(),
    ensures
        value(s[i].sub_spec(max_of(s, s.len()))) <= 0real,
{
    lemma_max_is_largest(s, value, s.len(), i);
}

/// With exact arithmetic, the sum of the first `n` shifted exponentials has
/// the sum of their values as its value, and that is positive unless `n` is
/// zero.
proof fn lemma_shifted_exp_sum<T: Scalar, E: Fn(T) -> T>(
    s: Seq<T>,
    exp: &E,
    value: spec_fn(T) -> real,
    n: nat,
)
    requires
        exact::<T>(value),
        exponential(exp, value),
        n <= s.len(),
    ensures
        value(shifted_exp_sum(s, exp, n)) >= 0real,
        n > 0 ==> value(shifted_exp_sum(s, exp, n)) > 0real,
    decreases n,
{
    if n == 0 {
        assert(value(number::<T>(0)) == 0real);
    } else {
        lemma_shifted_exp_sum(s, exp, value, (n - 1) as nat);
        let before = shifted_exp_sum(s, exp, (n - 1) as nat);
        let next = shifted_exp(s, exp, n - 1);
        assert(value(next) > 0real);
        assert(value(before.add_spec(next)) == value(before) + value(next));
    }
}

/// With exact arithmetic, every element of the softmax is positive.
pub proof fn lemma_softmax_is_positive<T: Scalar, E: Fn(T) -> T>(
    s: Seq<T>,
    exp: &E,
    value: spec_fn(T) -> real,
    i: int,
)
    requires
        exact::<T>(value),
        exponential(exp, value),
        0 <= i < s.len(),
    ensures
        value(softmax_spec(s, exp)[i]) > 0real,
{
    lemma_shifted_exp_sum(s, exp, value, s.len());
    let whole = shifted_exp_sum(s, exp, s.len());
    let part = shifted_exp(s, exp, i);
    assert(value(part) > 0real);
    assert(value(part.div_spec(whole)) == value(part) / value(whole));
    let p = value(part);
    let w = value(whole);
    assert(p / w > 0real) by (nonlinear_arith)
        requires
            p > 0real,
            w > 0real,
    ;
}

/// With exact arithmetic, the softmax keeps the order of its elements: of
/// two elements, one that is not smaller has a share that is not smaller, and
/// one that is greater has a share that is greater. So the largest element
/// has the largest share.
pub proof fn lemma_softmax_keeps_the_order<T: Scalar, E: Fn(T) -> T>(
    s: Seq<T>,
    exp: &E,
    value: spec_fn(T) -> real,
    i: int,
    j: int,
)
    requires
        exact::<T>(value),
        exponential(exp, value),
        0 <= i < s.len(),
        0 <= j < s.len(),
    ensures
        value(s[i]) <= value(s[j]) ==> value(softmax_spec(s, exp)[i]) <= value(
            softmax_spec(s, exp)[j],
        ),
        value(s[i]) < value(s[j]) ==> value(softmax_spec(s, exp)[i]) < value(
            softmax_spec(s, exp)[j],
        ),
{
    lemma_shifted_exp_sum(s, exp, value, s.len());
    let top = max_of(s, s.len());
    let whole = shifted_exp_sum(s, exp, s.len());
    let low = shifted_exp(s, exp, i);
    let high = shifted_exp(s, exp, j);
    assert(value(s[i].sub_spec(top)) == value(s[i]) - value(top));
    assert(value(s[j].sub_spec(top)) == value(s[j]) - value(top));
    assert(value(s[i]) <= value(s[j]) ==> value(low) <= value(high));
    assert(value(s[i]) < value(s[j]) ==> value(low) < value(high));
    assert(value(low.div_spec(whole)) == value(low) / value(whole));
    assert(value(high.div_spec(whole)) == value(high) / value(whole));
    let l = value(low);
    let h = value(high);
    let w = value(whole);
    assert(l <= h ==> l / w <= h / w) by (nonlinear_arith)
        requires
            w > 0real,
    ;
    assert(l < h ==> l / w < h / w) by (nonlinear_arith)
        requires
            w > 0real,
    ;
}

/// With exact arithmetic, the first `n` elements of the softmax add up to
/// the share that the first `n` shifted exponentials have of them all.
proof fn lemma_softmax_partial_sum<T: Scalar, E: Fn(T) -> T>(
    s: Seq<T>,
    exp: &E,
    value: spec_fn(T) -> real,
    n: nat,
)
    requires
        exact::<T>(value),
        exponential(exp, value),
        n <= s.len(),
        s.len() > 0,
    ensures
        sum_of_values(softmax_spec(s, exp), value, n) == value(shifted_exp_sum(s, exp, n)) / value(
            shifted_exp_sum(s, exp, s.len()),
        ),
    decreases n,
{
    lemma_shifted_exp_sum(s, exp, value, s.len());
    let whole = shifted_exp_sum(s, exp, s.len());
    let w = value(whole);
    if n == 0 {
        assert(value(number::<T>(0)) == 0real);
        assert(0real / w == 0real) by (nonlinear_arith)
            requires
                w > 0real,
        ;
    } else {
        lemma_softmax_partial_sum(s, exp, value, (n - 1) as nat);
        let before = shifted_exp_sum(s, exp, (n - 1) as nat);
        let next = shifted_exp(s, exp, n - 1);
        assert(value(before.add_spec(next)) == value(before) + value(next));
        assert(value(next.div_spec(whole)) == value(next) / w);
        assert(softmax_spec(s, exp)[n - 1] == next.div_spec(whole));
        let b = value(before);
        let x = value(next);
        assert(b / w + x / w == (b + x) / w) by (nonlinear_arith)
            requires
                w > 0real,
        ;
    }
}

/// With exact arithmetic, the elements of the softmax of a vector that is
/// not empty add up to one.
pub proof fn lemma_softmax_sums_to_one<T: Scalar, E: Fn(T) -> T>(
    s: Seq<T>,
    exp: &E,
    value: spec_fn(T) -> real,
)
    requires
        exact::<T>(value),
        exponential(exp, value),
        s.len() > 0,
    ensures
        sum_of_values(softmax_spec(s, exp), value, s.len()) == 1real,
{
    lemma_softmax_partial_sum(s, exp, value, s.len());
    lemma_shifted_exp_sum(s, exp, value, s.len());
    let w = value(shifted_exp_sum(s, exp, s.len()));
    assert(w / w == 1real) by (nonlinear_arith)
        requires
            w > 0real,
    ;
}

/// With exact arithmetic, an entry of the product of two two-by-two
/// matrices has as its value the sum of two products of values.
proof fn lemma_entry_of_product<T: Scalar>(
    a: &Matrix<T>,
    b: &Matrix<T>,
    value: spec_fn(T) -> real,
    i: int,
    j: int,
)
    requires
        exact::<T>(value),
    ensures
        value(product_entry(a, b, i, j, 2)) == value(a.at(i, 0)) * value(b.at(0, j)) + value(
            a.at(i, 1),
        ) * value(b.at(1, j)),
{
    let zero = number::<T>(0);
    assert(value(zero) == 0real);
    reveal_with_fuel(product_entry, 3);
    let first = a.at(i, 0).mul_spec(b.at(0, j));
    let second = a.at(i, 1).mul_spec(b.at(1, j));
    assert(product_entry(a, b, i, j, 2) == zero.add_spec(first).add_spec(second));
    assert(value(first) == value(a.at(i, 0)) * value(b.at(0, j)));
    assert(value(second) == value(a.at(i, 1)) * value(b.at(1, j)));
    assert(value(zero.add_spec(first)) == value(zero) + value(first));
    assert(value(zero.add_spec(first).add_spec(second)) == value(zero.add_spec(first)) + value(
        second,
    ));
}

/// `x * (y * r) + z * (-w * r)` is `(x * y - z * w) * r`.
proof fn lemma_cross_products(x: real, y: real, z: real, w: real, r: real)
    ensures
        x * (y * r) + z * (-w * r) == (x * y - z * w) * r,
{
    lemma_mul_assoc(x, y, r);
    lemma_mul_assoc(z, -w, r);
    lemma_mul_signs(z, w);
    lemma_mul_distributes(x * y, -(z * w), r);
}

/// The products of the rows and columns of a two-by-two matrix of real
/// numbers with those of its adjugate, each entry of which is multiplied by
/// the reciprocal `r` of the determinant.
proof fn lemma_adjugate_over_determinant(a: real, b: real, c: real, d: real, r: real)
    requires
        (a * d - b * c) * r == 1real,
    ensures
        a * (d * r) + b * (-c * r) == 1real,
        a * (-b * r) + b * (a * r) == 0real,
        c * (d * r) + d * (-c * r) == 0real,
        c * (-b * r) + d * (a * r) == 1real,
        (d * r) * a + (-b * r) * c == 1real,
        (d * r) * b + (-b * r) * d == 0real,
        (-c * r) * a + (a * r) * c == 0real,
        (-c * r) * b + (a * r) * d == 1real,
{
    lemma_mul_signs(a, b);
    lemma_mul_signs(a, c);
    lemma_mul_signs(a, d);
    lemma_mul_signs(b, c);
    lemma_mul_signs(b, d);
    lemma_mul_signs(c, d);
    lemma_mul_signs(d * r, a);
    lemma_mul_signs(d * r, b);
    lemma_mul_signs(-b * r, c);
    lemma_mul_signs(-b * r, d);
    lemma_mul_signs(-c * r, a);
    lemma_mul_signs(-c * r, b);
    lemma_mul_signs(a * r, c);
    lemma_mul_signs(a * r, d);
    lemma_cross_products(a, d, b, c, r);
    lemma_cross_products(b, a, a, b, r);
    lemma_cross_products(c, d, d, c, r);
    lemma_cross_products(d, a, c, b, r);
    lemma_cross_products(a, d, c, b, r);
    lemma_cross_products(b, d, d, b, r);
    lemma_cross_products(c, a, a, c, r);
    lemma_cross_products(d, a, b, c, r);
}

/// With exact arithmetic, a two-by-two matrix whose determinant is not zero,
/// multiplied by its inverse from either side, gives the identity: one on the
/// diagonal and zero beside it.
pub proof fn lemma_inverse_gives_the_identity<T: Scalar>(
    m: &Matrix<T>,
    inverse: &Matrix<T>,
    value: spec_fn(T) -> real,
    i: int,
    j: int,
)
    requires
        exact::<T>(value),
        m.rows() == 2,
        m.cols() == 2,
        inverse.rows() == 2,
        inverse.cols() == 2,
        !singular(m@),
        inverse@ == inverse_of(m@),
        0 <= i < 2,
        0 <= j < 2,
    ensures
        value(product_entry(m, inverse, i, j, 2)) == (if i == j {
            1real
        } else {
            0real
        }),
        value(product_entry(inverse, m, i, j, 2)) == (if i == j {
            1real
        } else {
            0real
        }),
{
    let one = number::<T>(1);
    assert(value(number::<T>(0)) == 0real);
    assert(value(one) == 1real);
    let a = m@[0];
    let b = m@[1];
    let c = m@[2];
    let d = m@[3];
    let det = determinant_of(m@);
    let r = one.div_spec(det);
    assert(value(a.mul_spec(d)) == value(a) * value(d));
    assert(value(b.mul_spec(c)) == value(b) * value(c));
    assert(value(det) == value(a) * value(d) - value(b) * value(c));
    assert(value(det) != 0real);
    assert(value(r) == 1real / value(det));
    lemma_reciprocal(value(det));
    lemma_adjugate_over_determinant(value(a), value(b), value(c), value(d), value(r));
    assert(value(inverse@[0]) == value(d) * value(r));
    assert(value(b.neg_spec()) == -value(b));
    assert(value(inverse@[1]) == -value(b) * value(r));
    assert(value(c.neg_spec()) == -value(c));
    assert(value(inverse@[2]) == -value(c) * value(r));
    assert(value(inverse@[3]) == value(a) * value(r));
    assert(flat_index(0, 0, 2) == 0 && flat_index(0, 1, 2) == 1 && flat_index(1, 0, 2) == 2
        && flat_index(1, 1, 2) == 3);
    lemma_entry_of_product(m, inverse, value, i, j);
    lemma_entry_of_product(inverse, m, value, i, j);
}

/// The sum of the products of the values of the first `n` elements of `x`
/// with those of `w`.
pub open spec fn sum_of_products<T>(x: Seq<T>, w: Seq<T>, value: spec_fn(T) -> real, n: nat) -> real
    decreases n,
{
    if n == 0 {
        0real
    } else {
        sum_of_products(x, w, value, (n - 1) as nat) + value(x[n - 1]) * value(w[n - 1])
    }
}

/// With exact arithmetic, the weighted sum has as its value the value of the
/// bias and the sum of the products of the inputs with their weights.
pub proof fn lemma_weighted_sum_is_exact<T: Scalar>(
    weights: Seq<T>,
    bias: T,
    input: Seq<T>,
    value: spec_fn(T) -> real,
    n: nat,
)
    requires
        exact::<T>(value),
    ensures
        value(weighted_sum(weights, bias, input, n)) == value(bias) + sum_of_products(
            input,
            weights,
            value,
            n,
        ),
    decreases n,
{
    if n > 0 {
        lemma_weighted_sum_is_exact(weights, bias, input, value, (n - 1) as nat);
        let before = weighted_sum(weights, bias, input, (n - 1) as nat);
        let next = input[n - 1].mul_spec(weights[n - 1]);
        assert(value(next) == value(input[n - 1]) * value(weights[n - 1]));
        assert(value(before.add_spec(next)) == value(before) + value(next));
    }
}

/// A sum of squares is not negative.
proof fn lemma_sum_of_squares<T>(x: Seq<T>, value: spec_fn(T) -> real, n: nat)
    ensures
        sum_of_products(x, x, value, n) >= 0real,
    decreases n,
{
    if n > 0 {
        lemma_sum_of_squares(x, value, (n - 1) as nat);
        let v = value(x[n - 1]);
        assert(v * v >= 0real) by (nonlinear_arith);
    }
}

/// `x * (w + k * x)` is `x * w + k * (x * x)`.
proof fn lemma_product_with_a_moved_weight(x: real, w: real, k: real)
    ensures
        x * (w + k * x) == x * w + k * (x * x),
{
    lemma_mul_signs(x, w + k * x);
    lemma_mul_distributes(w, k * x, x);
    lemma_mul_signs(w, x);
    lemma_mul_assoc(k, x, x);
}

/// Where each weight moves by `k` times its input, the sum of the products
/// of the inputs with their weights moves by `k` times the sum of the squares
/// of the inputs.
proof fn lemma_products_after_a_step<T>(
    x: Seq<T>,
    w: Seq<T>,
    moved: Seq<T>,
    value: spec_fn(T) -> real,
    k: real,
    n: nat,
)
    requires
        forall|i: int| 0 <= i < n ==> value(#[trigger] moved[i]) == value(w[i]) + k * value(x[i]),
    ensures
        sum_of_products(x, moved, value, n) == sum_of_products(x, w, value, n) + k
            * sum_of_products(x, x, value, n),
    decreases n,
{
    if n > 0 {
        lemma_products_after_a_step(x, w, moved, value, k, (n - 1) as nat);
        let v = value(x[n - 1]);
        assert(value(moved[n - 1]) == value(w[n - 1]) + k * v);
        lemma_product_with_a_moved_weight(v, value(w[n - 1]), k);
        let squares = sum_of_products(x, x, value, (n - 1) as nat);
        lemma_mul_signs(k, squares + v * v);
        lemma_mul_distributes(squares, v * v, k);
        lemma_mul_signs(k, squares);
        lemma_mul_signs(k, v * v);
    }
}

/// With exact arithmetic and a positive learning rate, one step of gradient
/// descent on an example moves the output for that example toward its
/// target: the output after the step is not smaller where the target was not
/// smaller than the output before, and not greater where the target was not
/// greater. It may pass the target.
pub proof fn lemma_step_moves_the_output_toward_the_target<T: Scalar, E: Fn(T) -> T>(
    neuron: Neuron<T>,
    input: Seq<T>,
    target: T,
    exp: &E,
    value: spec_fn(T) -> real,
)
    requires
        exact::<T>(value),
        exponential(exp, value),
        input.len() == neuron.weights.len(),
        value(neuron.learning_rate) > 0real,
    ensures
        ({
            let before = value(neuron.output(input, exp));
            let after = value(neuron.step(input, target, exp).output(input, exp));
            &&& value(target) >= before ==> after >= before
            &&& value(target) <= before ==> after <= before
        }),
{
    let n = neuron.weights.len();
    let sum = weighted_sum(neuron.weights, neuron.bias, input, n);
    let output = neuron.output(input, exp);
    let error = target.sub_spec(output);
    let delta = derivative_spec(output);
    let pull = neuron.learning_rate.mul_spec(error);
    let moved = neuron.step(input, target, exp);
    let moved_sum = weighted_sum(moved.weights, moved.bias, input, n);

    lemma_sigmoid_between_zero_and_one(sum, exp, value);
    let o = value(output);
    assert(value(number::<T>(1)) == 1real);
    assert(value(number::<T>(1).sub_spec(output)) == 1real - o);
    assert(value(delta) == o * (1real - o));
    lemma_mul_order(o, 1real - o);
    assert(value(delta) > 0real);
    let e = value(error);
    assert(e == value(target) - o);
    assert(value(pull) == value(neuron.learning_rate) * e);
    let k = value(pull) * value(delta);

    assert forall|i: int| 0 <= i < n implies value(#[trigger] moved.weights[i]) == value(
        neuron.weights[i],
    ) + k * value(input[i]) by {
        let step = pull.mul_spec(input[i]).mul_spec(delta);
        assert(moved.weights[i] == neuron.weights[i].add_spec(step));
        assert(value(pull.mul_spec(input[i])) == value(pull) * value(input[i]));
        assert(value(step) == (value(pull) * value(input[i])) * value(delta));
        lemma_mul_assoc(value(pull), value(input[i]), value(delta));
        lemma_mul_signs(value(input[i]), value(delta));
        lemma_mul_assoc(value(pull), value(delta), value(input[i]));
    }
    assert(value(moved.bias) == value(neuron.bias) + k);

    lemma_weighted_sum_is_exact(neuron.weights, neuron.bias, input, value, n);
    lemma_weighted_sum_is_exact(moved.weights, moved.bias, input, value, n);
    lemma_products_after_a_step(input, neuron.weights, moved.weights, value, k, n);
    lemma_sum_of_squares(input, value, n);
    let squares = sum_of_products(input, input, value, n);
    assert(value(moved_sum) == value(sum) + k + k * squares);

    lemma_mul_order(value(neuron.learning_rate), e);
    lemma_mul_order(value(neuron.learning_rate), -e);
    lemma_mul_signs(value(neuron.learning_rate), e);
    lemma_mul_order(value(pull), value(delta));
    lemma_mul_order(-value(pull), value(delta));
    lemma_mul_signs(value(pull), value(delta));
    lemma_mul_order(k, squares);
    lemma_mul_order(-k, squares);
    lemma_mul_signs(k, squares);
    assert(e >= 0real ==> k >= 0real && k * squares >= 0real);
    assert(e <= 0real ==> k <= 0real && k * squares <= 0real);
    lemma_sigmoid_increases(sum, moved_sum, exp, value);
    lemma_sigmoid_increases(moved_sum, sum, exp, value);
}

} // verus!
