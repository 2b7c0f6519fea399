//! Dense matrices of scalars, stored row by row.

use crate::error::MathError;
use crate::scalar::lawful;
use crate::scalar::number;
use crate::scalar::can_add;
use crate::scalar::can_divide;
use crate::scalar::can_multiply;
use crate::scalar::can_negate;
use crate::scalar::can_subtract;
use crate::scalar::Scalar;
use crate::vector::copy_of;
use std::ops::Neg;
use vstd::arithmetic::div_mod::lemma_fundamental_div_mod;
use vstd::arithmetic::div_mod::lemma_mod_bound;
use vstd::prelude::*;
use vstd::std_specs::cmp::PartialEqSpec;
use vstd::std_specs::ops::AddSpec;
use vstd::std_specs::ops::DivSpec;
use vstd::std_specs::ops::MulSpec;
use vstd::std_specs::ops::NegSpec;
use vstd::std_specs::ops::SubSpec;

verus! {

/// The place of the element in row `i` and column `j` of a row-major grid
/// with `cols` columns.
pub open spec fn flat_index(i: int, j: int, cols: int) -> int {
    i * cols + j
}

/// An index pair inside a grid lies inside its row-major storage.
pub proof fn lemma_flat_index_in_bounds(i: int, j: int, rows: int, cols: int)
    requires
        0 <= i < rows,
        0 <= j < cols,
    ensures
        0 <= i * cols <= flat_index(i, j, cols) < rows * cols,
        flat_index(i, j, cols) < (i + 1) * cols,
{
    assert(0 <= i * cols && i * cols + j < rows * cols && i * cols + j < (i + 1) * cols)
        by (nonlinear_arith)
        requires
            0 <= i < rows,
            0 <= j < cols,
    ;
}

/// Every place of a row-major store is the place of one index pair of its
/// grid.
pub proof fn lemma_flat_index_splits(k: int, rows: int, cols: int)
    requires
        0 <= k < rows * cols,
        0 <= rows,
        0 <= cols,
    ensures
        0 <= k / cols < rows,
        0 <= k % cols < cols,
        flat_index(k / cols, k % cols, cols) == k,
{
    assert(cols > 0) by (nonlinear_arith)
        requires
            0 <= k < rows * cols,
            0 <= cols,
    ;
    lemma_fundamental_div_mod(k, cols);
    lemma_mod_bound(k, cols);
    assert(0 <= k / cols < rows) by (nonlinear_arith)
        requires
            0 <= k < rows * cols,
            cols > 0,
            k == cols * (k / cols) + (k % cols),
            0 <= k % cols < cols,
    ;
    assert(flat_index(k / cols, k % cols, cols) == k) by (nonlinear_arith)
        requires
            k == cols * (k / cols) + (k % cols),
    ;
}

/// A grid of `rows` by `cols` scalars, stored row by row.
#[derive(Debug)]
pub struct Matrix<T> {
    rows: usize,
    cols: usize,
    elements: Vec<T>,
}

impl<T> View for Matrix<T> {
    type V = Seq<T>;

    /// The elements, row by row.
    closed spec fn view(&self) -> Seq<T> {
        self.elements@
    }
}

impl<T> Matrix<T> {
    #[verifier::type_invariant]
    spec fn filled(&self) -> bool {
        self.is_grid()
    }

    /// The matrix holds one element for each place of its grid. Every matrix
    /// that this library hands out does.
    pub open spec fn is_grid(&self) -> bool {
        self@.len() == self.rows() * self.cols()
    }

    /// `t` is the transpose of this matrix: its rows are the columns of this
    /// one.
    pub open spec fn transposed_to(&self, t: &Matrix<T>) -> bool {
        &&& t.rows() == self.cols()
        &&& t.cols() == self.rows()
        &&& t.is_grid()
        &&& forall|i: int, j: int|
            0 <= i < self.rows() && 0 <= j < self.cols() ==> #[trigger] t.at(j, i) == self.at(i, j)
    }

    /// The number of rows.
    pub closed spec fn spec_rows(&self) -> usize {
        self.rows
    }

    /// The number of columns.
    pub closed spec fn spec_cols(&self) -> usize {
        self.cols
    }

    /// The element in row `i` and column `j`.
    pub open spec fn at(&self, i: int, j: int) -> T {
        self@[flat_index(i, j, self.cols() as int)]
    }

    /// The matrix of `rows` by `cols` that holds `elements` row by row. It is
    /// refused unless `elements` holds exactly `rows * cols` scalars.
    pub fn new(rows: usize, cols: usize, elements: Vec<T>) -> (r: Result<Matrix<T>, MathError>)
        ensures
            match r {
                Ok(m) => {
                    &&& rows * cols == elements@.len()
                    &&& m.rows() == rows
                    &&& m.cols() == cols
                    &&& m@ == elements@
                    &&& m.is_grid()
                },
                Err(e) => rows * cols != elements@.len() && e == MathError::DimensionMismatch,
            },
    {
        assert(0 <= rows * cols) by (nonlinear_arith);
        let len = elements.len();
        match rows.checked_mul(cols) {
            Some(count) => {
                if count == len {
                    Ok(Matrix { rows, cols, elements })
                } else {
                    Err(MathError::DimensionMismatch)
                }
            },
            None => Err(MathError::DimensionMismatch),
        }
    }

    /// The number of rows.
    #[verifier::when_used_as_spec(spec_rows)]
    pub fn rows(&self) -> (n: usize)
        ensures
            n == self.rows(),
            self.is_grid(),
    {
        proof {
            use_type_invariant(self);
        }
        self.rows
    }

    /// The number of columns.
    #[verifier::when_used_as_spec(spec_cols)]
    pub fn cols(&self) -> (n: usize)
        ensures
            n == self.cols(),
            self.is_grid(),
    {
        proof {
            use_type_invariant(self);
        }
        self.cols
    }

    /// The elements, row by row.
    pub fn elements(&self) -> (elements: &Vec<T>)
        ensures
            elements@ == self@,
            self.is_grid(),
    {
        proof {
            use_type_invariant(self);
        }
        &self.elements
    }
}

impl<T: Copy> Clone for Matrix<T> {
    /// A matrix of the same shape with the same elements.
    fn clone(&self) -> (copy: Self)
        ensures
            copy.rows() == self.rows(),
            copy.cols() == self.cols(),
            copy@ == self@,
            copy.is_grid(),
    {
        proof {
            use_type_invariant(self);
        }
        Matrix { rows: self.rows, cols: self.cols, elements: copy_of(&self.elements) }
    }
}

impl<T: Copy> Matrix<T> {
    /// The element in row `i` and column `j`, where the matrix has one.
    pub fn get(&self, i: usize, j: usize) -> (r: Option<T>)
        ensures
            r == (if i < self.rows() && j < self.cols() {
                Some(self.at(i as int, j as int))
            } else {
                None
            }),
    {
        proof {
            use_type_invariant(self);
        }
        let len = self.elements.len();
        if i < self.rows && j < self.cols {
            proof {
                lemma_flat_index_in_bounds(i as int, j as int, self.rows as int, self.cols as int);
            }
            Some(self.elements[i * self.cols + j])
        } else {
            None
        }
    }

    /// The transpose: the matrix whose rows are the columns of this one.
    pub fn transpose(&self) -> (t: Matrix<T>)
        ensures
            self.is_grid(),
            self.transposed_to(&t),
    {
        proof {
            use_type_invariant(self);
        }
        let rows = self.rows;
        let cols = self.cols;
        let len = self.elements.len();
        let mut out: Vec<T> = Vec::new();
        let mut j: usize = 0;
        while j < cols
            invariant
                rows == self.rows,
                cols == self.cols,
                rows * cols == len == self.elements@.len(),
                j <= cols,
                out@.len() == j * rows,
                forall|jj: int, ii: int|
                    0 <= jj < j && 0 <= ii < rows ==> #[trigger] out@[flat_index(
                        jj,
                        ii,
                        rows as int,
                    )] == self.elements@[flat_index(ii, jj, cols as int)],
            decreases cols - j,
        {
            let mut i: usize = 0;
            while i < rows
                invariant
                    rows == self.rows,
                    cols == self.cols,
                    rows * cols == len == self.elements@.len(),
                    j < cols,
                    i <= rows,
                    out@.len() == j * rows + i,
                    forall|jj: int, ii: int|
                        0 <= jj < j && 0 <= ii < rows ==> #[trigger] out@[flat_index(
                            jj,
                            ii,
                            rows as int,
                        )] == self.elements@[flat_index(ii, jj, cols as int)],
                    forall|ii: int|
                        0 <= ii < i ==> #[trigger] out@[flat_index(j as int, ii, rows as int)]
                            == self.elements@[flat_index(ii, j as int, cols as int)],
                decreases rows - i,
            {
                proof {
                    lemma_flat_index_in_bounds(i as int, j as int, rows as int, cols as int);
                    assert forall|jj: int, ii: int| 0 <= jj < j && 0 <= ii < rows implies flat_index(
                        jj,
                        ii,
                        rows as int,
                    ) < j * rows by {
                        lemma_flat_index_in_bounds(jj, ii, j as int, rows as int);
                    }
                }
                out.push(self.elements[i * cols + j]);
                i += 1;
            }
            proof {
                assert((j + 1) * rows == j * rows + rows) by (nonlinear_arith);
            }
            j += 1;
        }
        proof {
            assert(cols * rows == rows * cols) by (nonlinear_arith);
        }
        Matrix { rows: cols, cols: rows, elements: out }
    }
}

/// A matrix has one transpose: two matrices that are both the transpose of
/// `m` hold the same elements.
pub proof fn lemma_transpose_is_unique<T>(m: &Matrix<T>, t: &Matrix<T>, u: &Matrix<T>)
    requires
        m.is_grid(),
        m.transposed_to(t),
        m.transposed_to(u),
    ensures
        t.rows() == u.rows(),
        t.cols() == u.cols(),
        t@ == u@,
{
    assert(m.rows() * m.cols() == m.cols() * m.rows()) by (nonlinear_arith);
    assert forall|k: int| 0 <= k < t@.len() implies t@[k] == u@[k] by {
        lemma_flat_index_splits(k, t.rows() as int, t.cols() as int);
        let j = k / (t.cols() as int);
        let i = k % (t.cols() as int);
        assert(t.at(j, i) == m.at(i, j));
        assert(u.at(j, i) == m.at(i, j));
    }
    assert(t@ =~= u@);
}

/// Transposing a matrix twice gives the matrix back.
pub proof fn lemma_transpose_twice<T>(m: &Matrix<T>, t: &Matrix<T>, back: &Matrix<T>)
    requires
        m.is_grid(),
        m.transposed_to(t),
        t.transposed_to(back),
    ensures
        back.rows() == m.rows(),
        back.cols() == m.cols(),
        back@ == m@,
{
    assert forall|k: int| 0 <= k < m@.len() implies back@[k] == m@[k] by {
        lemma_flat_index_splits(k, m.rows() as int, m.cols() as int);
        let i = k / (m.cols() as int);
        let j = k % (m.cols() as int);
        assert(t.at(j, i) == m.at(i, j));
        assert(back.at(i, j) == t.at(j, i));
    }
    assert(back@ =~= m@);
}

/// The sum of the first `n` products of an element of row `i` of `a` with
/// the element of column `j` of `b` beside it, added up from zero in the
/// order of the indices.
pub open spec fn product_entry<T: Scalar>(
    a: &Matrix<T>,
    b: &Matrix<T>,
    i: int,
    j: int,
    n: nat,
) -> T
    decreases n,
{
    if n == 0 {
        number::<T>(0)
    } else {
        product_entry(a, b, i, j, (n - 1) as nat).add_spec(
            a.at(i, n - 1).mul_spec(b.at(n - 1, j)),
        )
    }
}

/// The determinant of the two-by-two matrix stored in `m`.
pub open spec fn determinant_of<T: Scalar>(m: Seq<T>) -> T {
    m[0].mul_spec(m[3]).sub_spec(m[1].mul_spec(m[2]))
}

/// The determinant of the two-by-two matrix stored in `m` compares equal to
/// zero.
pub open spec fn singular<T: Scalar>(m: Seq<T>) -> bool {
    determinant_of(m).eq_spec(&number::<T>(0))
}

/// The adjugate of the two-by-two matrix stored in `m`, each entry multiplied
/// by the reciprocal of the determinant.
pub open spec fn inverse_of<T: Scalar>(m: Seq<T>) -> Seq<T> {
    let r = number::<T>(1).div_spec(determinant_of(m));
    seq![
        m[3].mul_spec(r),
        m[1].neg_spec().mul_spec(r),
        m[2].neg_spec().mul_spec(r),
        m[0].mul_spec(r),
    ]
}

impl<T: Scalar> Matrix<T> {
    /// The matrix product. It is refused unless this matrix has as many
    /// columns as `other` has rows.
    pub fn multiply(&self, other: &Matrix<T>) -> (r: Result<Matrix<T>, MathError>)
        requires
            can_add::<T>(),
            can_multiply::<T>(),
        ensures
            match r {
                Ok(p) => {
                    &&& self.cols() == other.rows()
                    &&& p.rows() == self.rows()
                    &&& p.cols() == other.cols()
                    &&& p.is_grid()
                    &&& lawful::<T>() ==> forall|i: int, j: int|
                        0 <= i < self.rows() && 0 <= j < other.cols() ==> #[trigger] p.at(i, j)
                            == product_entry(self, other, i, j, self.cols() as nat)
                },
                Err(e) => self.cols() != other.rows() && e == MathError::DimensionMismatch,
            },
    {
        proof {
            use_type_invariant(self);
            use_type_invariant(other);
        }
        if self.cols != other.rows {
            return Err(MathError::DimensionMismatch);
        }
        let rows = self.rows;
        let inner = self.cols;
        let cols = other.cols;
        let left_len = self.elements.len();
        let right_len = other.elements.len();
        let mut out: Vec<T> = Vec::new();
        let mut i: usize = 0;
        while i < rows
            invariant
                can_add::<T>(),
                can_multiply::<T>(),
                rows == self.rows,
                inner == self.cols == other.rows,
                cols == other.cols,
                rows * inner == left_len == self.elements@.len(),
                inner * cols == right_len == other.elements@.len(),
                i <= rows,
                out@.len() == i * cols,
                lawful::<T>() ==> forall|ii: int, jj: int|
                    0 <= ii < i && 0 <= jj < cols ==> #[trigger] out@[flat_index(
                        ii,
                        jj,
                        cols as int,
                    )] == product_entry(self, other, ii, jj, inner as nat),
            decreases rows - i,
        {
            let mut j: usize = 0;
            while j < cols
                invariant
                    can_add::<T>(),
                    can_multiply::<T>(),
                    rows == self.rows,
                    inner == self.cols == other.rows,
                    cols == other.cols,
                    rows * inner == left_len == self.elements@.len(),
                    inner * cols == right_len == other.elements@.len(),
                    i < rows,
                    j <= cols,
                    out@.len() == i * cols + j,
                    lawful::<T>() ==> forall|ii: int, jj: int|
                        0 <= ii < i && 0 <= jj < cols ==> #[trigger] out@[flat_index(
                            ii,
                            jj,
                            cols as int,
                        )] == product_entry(self, other, ii, jj, inner as nat),
                    lawful::<T>() ==> forall|jj: int|
                        0 <= jj < j ==> #[trigger] out@[flat_index(i as int, jj, cols as int)]
                            == product_entry(self, other, i as int, jj, inner as nat),
                decreases cols - j,
            {
                let mut sum = T::from(0u8);
                let mut k: usize = 0;
                while k < inner
                    invariant
                        can_add::<T>(),
                        can_multiply::<T>(),
                        rows == self.rows,
                        inner == self.cols == other.rows,
                        cols == other.cols,
                        rows * inner == left_len == self.elements@.len(),
                        inner * cols == right_len == other.elements@.len(),
                        i < rows,
                        j < cols,
                        k <= inner,
                        lawful::<T>() ==> sum == product_entry(
                            self,
                            other,
                            i as int,
                            j as int,
                            k as nat,
                        ),
                    decreases inner - k,
                {
                    proof {
                        lemma_flat_index_in_bounds(i as int, k as int, rows as int, inner as int);
                        lemma_flat_index_in_bounds(k as int, j as int, inner as int, cols as int);
                    }
                    sum = sum + self.elements[i * inner + k] * other.elements[k * cols + j];
                    k += 1;
                }
                proof {
                    assert forall|ii: int, jj: int| 0 <= ii < i && 0 <= jj < cols implies flat_index(
                        ii,
                        jj,
                        cols as int,
                    ) < i * cols by {
                        lemma_flat_index_in_bounds(ii, jj, i as int, cols as int);
                    }
                }
                out.push(sum);
                j += 1;
            }
            proof {
                assert((i + 1) * cols == i * cols + cols) by (nonlinear_arith);
            }
            i += 1;
        }
        Ok(Matrix { rows, cols, elements: out })
    }

    /// The determinant of a two-by-two matrix. Every other shape is refused.
    pub fn determinant(&self) -> (r: Result<T, MathError>)
        requires
            can_multiply::<T>(),
            can_subtract::<T>(),
        ensures
            match r {
                Ok(d) => {
                    &&& self.rows() == 2
                    &&& self.cols() == 2
                    &&& lawful::<T>() ==> d == determinant_of(self@)
                },
                Err(e) => !(self.rows() == 2 && self.cols() == 2) && e
                    == MathError::UnsupportedShape,
            },
    {
        proof {
            use_type_invariant(self);
        }
        if self.rows == 2 && self.cols == 2 {
            assert(self.rows * self.cols == 4) by (nonlinear_arith)
                requires
                    self.rows == 2,
                    self.cols == 2,
            ;
            Ok(self.elements[0] * self.elements[3] - self.elements[1] * self.elements[2])
        } else {
            Err(MathError::UnsupportedShape)
        }
    }

    /// The inverse of a two-by-two matrix. Every other shape is refused. A
    /// two-by-two matrix whose determinant compares equal to zero has no
    /// inverse, which is no failure: the answer is then `None`.
    pub fn inverse(&self) -> (r: Result<Option<Matrix<T>>, MathError>)
        requires
            can_multiply::<T>(),
            can_subtract::<T>(),
            can_divide::<T>(),
            can_negate::<T>(),
        ensures
            match r {
                Err(e) => !(self.rows() == 2 && self.cols() == 2) && e
                    == MathError::UnsupportedShape,
                Ok(found) => {
                    &&& self.rows() == 2
                    &&& self.cols() == 2
                    &&& lawful::<T>() ==> (found is None <==> singular(self@))
                    &&& found matches Some(inv) ==> {
                        &&& inv.rows() == 2
                        &&& inv.cols() == 2
                        &&& inv.is_grid()
                        &&& lawful::<T>() ==> inv@ == inverse_of(self@)
                    }
                },
            },
    {
        proof {
            use_type_invariant(self);
        }
        if self.rows != 2 || self.cols != 2 {
            return Err(MathError::UnsupportedShape);
        }
        assert(self.rows * self.cols == 4) by (nonlinear_arith)
            requires
                self.rows == 2,
                self.cols == 2,
        ;
        let det = self.elements[0] * self.elements[3] - self.elements[1] * self.elements[2];
        if det == T::from(0u8) {
            return Ok(None);
        }
        let r = T::from(1u8) / det;
        let mut out: Vec<T> = Vec::new();
        out.push(self.elements[3] * r);
        out.push(self.elements[1].neg() * r);
        out.push(self.elements[2].neg() * r);
        out.push(self.elements[0] * r);
        Ok(Some(Matrix { rows: 2, cols: 2, elements: out }))
    }
}

} // verus!
