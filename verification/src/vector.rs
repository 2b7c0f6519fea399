//! Dense vectors of scalars.

use crate::error::MathError;
use crate::scalar::lawful;
use crate::scalar::number;
use crate::scalar::can_add;
use crate::scalar::can_multiply;
use crate::scalar::Scalar;
use vstd::prelude::*;
use vstd::std_specs::ops::AddSpec;
use vstd::std_specs::ops::MulSpec;

verus! {

/// A vector with the elements of `source` in their order.
pub(crate) fn copy_of<T: Copy>(source: &Vec<T>) -> (copy: Vec<T>)
    ensures
        copy@ == source@,
{
    let n = source.len();
    let mut copy: Vec<T> = Vec::new();
    let mut i: usize = 0;
    while i < n
        invariant
            n == source@.len(),
            i <= n,
            copy@ == source@.take(i as int),
        decreases n - i,
    {
        copy.push(source[i]);
        i += 1;
    }
    copy
}

/// An ordered sequence of scalars.
#[derive(Debug)]
pub struct Vector<T> {
    elements: Vec<T>,
}

impl<T> View for Vector<T> {
    type V = Seq<T>;

    closed spec fn view(&self) -> Seq<T> {
        self.elements@
    }
}

impl<T: Copy> Clone for Vector<T> {
    /// A vector with the same elements.
    fn clone(&self) -> (copy: Self)
        ensures
            copy@ == self@,
    {
        Vector { elements: copy_of(&self.elements) }
    }
}

/// The element-wise sum of two sequences of one length.
pub open spec fn sum_of<T: Scalar>(a: Seq<T>, b: Seq<T>) -> Seq<T> {
    Seq::new(a.len(), |i: int| a[i].add_spec(b[i]))
}

/// The sum of the products of the first `n` pairs of elements, added up from
/// zero in the order of the indices.
pub open spec fn dot_of<T: Scalar>(a: Seq<T>, b: Seq<T>, n: nat) -> T
    decreases n,
{
    if n == 0 {
        number::<T>(0)
    } else {
        dot_of(a, b, (n - 1) as nat).add_spec(a[n - 1].mul_spec(b[n - 1]))
    }
}

impl<T> Vector<T> {
    /// The vector that holds `elements` in their order.
    pub fn new(elements: Vec<T>) -> (v: Self)
        ensures
            v@ == elements@,
    {
        Vector { elements }
    }

    /// The number of elements.
    pub fn len(&self) -> (n: usize)
        ensures
            n == self@.len(),
    {
        self.elements.len()
    }

    /// The elements in their order.
    pub fn elements(&self) -> (elements: &Vec<T>)
        ensures
            elements@ == self@,
    {
        &self.elements
    }
}

impl<T: Scalar> Vector<T> {
    /// The element-wise sum of two vectors of one length. Vectors of different
    /// lengths are refused.
    pub fn add(&self, other: &Vector<T>) -> (r: Result<Vector<T>, MathError>)
        requires
            can_add::<T>(),
        ensures
            match r {
                Ok(v) => {
                    &&& self@.len() == other@.len()
                    &&& v@.len() == self@.len()
                    &&& lawful::<T>() ==> v@ == sum_of(self@, other@)
                },
                Err(e) => self@.len() != other@.len() && e == MathError::DimensionMismatch,
            },
    {
        let n = self.elements.len();
        if other.elements.len() != n {
            return Err(MathError::DimensionMismatch);
        }
        let mut out: Vec<T> = Vec::new();
        let mut i: usize = 0;
        while i < n
            invariant
                can_add::<T>(),
                n == self.elements@.len(),
                n == other.elements@.len(),
                i <= n,
                out@.len() == i,
                lawful::<T>() ==> forall|k: int|
                    0 <= k < i ==> out@[k] == self.elements@[k].add_spec(other.elements@[k]),
            decreases n - i,
        {
            out.push(self.elements[i] + other.elements[i]);
            i += 1;
        }
        Ok(Vector { elements: out })
    }

    /// The dot product of two vectors of one length. Vectors of different
    /// lengths are refused.
    pub fn dot(&self, other: &Vector<T>) -> (r: Result<T, MathError>)
        requires
            can_add::<T>(),
            can_multiply::<T>(),
        ensures
            match r {
                Ok(d) => {
                    &&& self@.len() == other@.len()
                    &&& lawful::<T>() ==> d == dot_of(self@, other@, self@.len())
                },
                Err(e) => self@.len() != other@.len() && e == MathError::DimensionMismatch,
            },
    {
        let n = self.elements.len();
        if other.elements.len() != n {
            return Err(MathError::DimensionMismatch);
        }
        let mut sum = T::from(0u8);
        let mut i: usize = 0;
        while i < n
            invariant
                can_add::<T>(),
                can_multiply::<T>(),
                n == self.elements@.len(),
                n == other.elements@.len(),
                i <= n,
                lawful::<T>() ==> sum == dot_of(self.elements@, other.elements@, i as nat),
            decreases n - i,
        {
            sum = sum + self.elements[i] * other.elements[i];
            i += 1;
        }
        Ok(sum)
    }
}

} // verus!
