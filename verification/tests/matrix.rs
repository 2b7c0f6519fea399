use neuron::error::MathError;
use neuron::matrix::Matrix;

fn close(a: f64, b: f64, epsilon: f64) -> bool {
    (a - b).abs() <= epsilon
}

#[test]
fn test_matrix_multiplication() {
    let m1 = Matrix::new(2, 3, vec![1.0, 2.0, 3.0, 4.0, 5.0, 6.0]).unwrap();
    let m2 = Matrix::new(3, 2, vec![7.0, 8.0, 9.0, 10.0, 11.0, 12.0]).unwrap();
    let result = m1.multiply(&m2).unwrap();
    assert_eq!(*result.elements(), vec![58.0, 64.0, 139.0, 154.0]);
}

#[test]
fn test_matrix_transpose() {
    let m1 = Matrix::new(2, 3, vec![1.0, 2.0, 3.0, 4.0, 5.0, 6.0]).unwrap();
    let transposed = m1.transpose();
    assert_eq!(*transposed.elements(), vec![1.0, 4.0, 2.0, 5.0, 3.0, 6.0]);
}

#[test]
fn test_matrix_inverse() {
    let m = Matrix::new(2, 2, vec![4.0, 7.0, 2.0, 6.0]).unwrap();
    if let Ok(Some(inverse)) = m.inverse() {
        let identity = m.multiply(&inverse).unwrap();
        for (i, &x) in identity.elements().iter().enumerate() {
            assert!(close(x, if i % 3 == 0 { 1.0 } else { 0.0 }, 1e-10));
        }
    } else {
        panic!("Matrix should have an inverse");
    }
}

#[test]
fn test_matrix_determinant() {
    let m = Matrix::new(2, 2, vec![4.0, 7.0, 2.0, 6.0]).unwrap();
    assert_eq!(m.determinant().unwrap(), 10.0);
}

#[test]
fn a_matrix_needs_one_element_for_each_place() {
    assert_eq!(Matrix::new(2, 3, vec![1.0; 5]).unwrap_err(), MathError::DimensionMismatch);
    assert_eq!(Matrix::new(2, 3, vec![1.0; 7]).unwrap_err(), MathError::DimensionMismatch);
    assert_eq!(Matrix::new(0, 3, vec![1.0]).unwrap_err(), MathError::DimensionMismatch);
    assert!(Matrix::new(2, 3, vec![1.0; 6]).is_ok());
    assert!(Matrix::new(0, 3, Vec::<f64>::new()).is_ok());
    assert!(Matrix::new(3, 0, Vec::<f64>::new()).is_ok());
}

#[test]
fn a_matrix_too_large_to_count_is_refused() {
    let built = Matrix::new(usize::MAX, 2, vec![1.0, 2.0]);
    assert_eq!(built.unwrap_err(), MathError::DimensionMismatch);
    let built = Matrix::new(usize::MAX / 2 + 1, 2, Vec::<f64>::new());
    assert_eq!(built.unwrap_err(), MathError::DimensionMismatch);
}

#[test]
fn a_matrix_knows_its_shape_and_its_elements() {
    let m = Matrix::new(2, 3, vec![1.0, 2.0, 3.0, 4.0, 5.0, 6.0]).unwrap();
    assert_eq!(m.rows(), 2);
    assert_eq!(m.cols(), 3);
    assert_eq!(m.get(0, 0), Some(1.0));
    assert_eq!(m.get(0, 2), Some(3.0));
    assert_eq!(m.get(1, 0), Some(4.0));
    assert_eq!(m.get(1, 2), Some(6.0));
    assert_eq!(m.get(2, 0), None);
    assert_eq!(m.get(0, 3), None);
    let copy = m.clone();
    assert_eq!(copy.rows(), 2);
    assert_eq!(copy.cols(), 3);
    assert_eq!(*copy.elements(), vec![1.0, 2.0, 3.0, 4.0, 5.0, 6.0]);
}

#[test]
fn the_transpose_swaps_the_indices_of_every_element() {
    let m = Matrix::new(2, 3, vec![1.0, 2.0, 3.0, 4.0, 5.0, 6.0]).unwrap();
    let t = m.transpose();
    assert_eq!(t.rows(), 3);
    assert_eq!(t.cols(), 2);
    for i in 0..2 {
        for j in 0..3 {
            assert_eq!(t.get(j, i), m.get(i, j));
        }
    }
}

#[test]
fn transposing_twice_gives_the_matrix_back() {
    let m = Matrix::new(3, 4, (0..12).map(f64::from).collect()).unwrap();
    let back = m.transpose().transpose();
    assert_eq!(back.rows(), 3);
    assert_eq!(back.cols(), 4);
    assert_eq!(*back.elements(), *m.elements());
}

#[test]
fn the_transpose_of_a_row_is_a_column() {
    let row = Matrix::new(1, 3, vec![1.0, 2.0, 3.0]).unwrap();
    let column = row.transpose();
    assert_eq!(column.rows(), 3);
    assert_eq!(column.cols(), 1);
    assert_eq!(*column.elements(), vec![1.0, 2.0, 3.0]);
    let empty = Matrix::new(0, 5, Vec::<f64>::new()).unwrap().transpose();
    assert_eq!(empty.rows(), 5);
    assert_eq!(empty.cols(), 0);
    assert!(empty.elements().is_empty());
}

#[test]
fn the_product_has_the_rows_of_the_left_and_the_columns_of_the_right() {
    let left = Matrix::new(1, 3, vec![1.0, 2.0, 3.0]).unwrap();
    let right = Matrix::new(3, 1, vec![4.0, 5.0, 6.0]).unwrap();
    let inner = left.multiply(&right).unwrap();
    assert_eq!((inner.rows(), inner.cols()), (1, 1));
    assert_eq!(*inner.elements(), vec![32.0]);
    let outer = right.multiply(&left).unwrap();
    assert_eq!((outer.rows(), outer.cols()), (3, 3));
    assert_eq!(*outer.elements(), vec![4.0, 8.0, 12.0, 5.0, 10.0, 15.0, 6.0, 12.0, 18.0]);
}

#[test]
fn the_product_refuses_shapes_that_do_not_meet() {
    let left = Matrix::new(2, 3, vec![1.0; 6]).unwrap();
    let right = Matrix::new(2, 3, vec![1.0; 6]).unwrap();
    assert_eq!(left.multiply(&right).unwrap_err(), MathError::DimensionMismatch);
}

#[test]
fn the_product_over_no_inner_index_is_all_zero() {
    let left = Matrix::new(2, 0, Vec::<f64>::new()).unwrap();
    let right = Matrix::new(0, 3, Vec::<f64>::new()).unwrap();
    let product = left.multiply(&right).unwrap();
    assert_eq!((product.rows(), product.cols()), (2, 3));
    assert_eq!(*product.elements(), vec![0.0; 6]);
}

#[test]
fn multiplying_by_the_identity_changes_nothing() {
    let m = Matrix::new(2, 2, vec![4.0, 7.0, 2.0, 6.0]).unwrap();
    let identity = Matrix::new(2, 2, vec![1.0, 0.0, 0.0, 1.0]).unwrap();
    assert_eq!(*m.multiply(&identity).unwrap().elements(), *m.elements());
    assert_eq!(*identity.multiply(&m).unwrap().elements(), *m.elements());
}

#[test]
fn the_determinant_is_for_two_by_two_only() {
    let wide = Matrix::new(2, 3, vec![1.0; 6]).unwrap();
    assert_eq!(wide.determinant().unwrap_err(), MathError::UnsupportedShape);
    let cube = Matrix::new(3, 3, vec![1.0; 9]).unwrap();
    assert_eq!(cube.determinant().unwrap_err(), MathError::UnsupportedShape);
    let single = Matrix::new(1, 1, vec![5.0]).unwrap();
    assert_eq!(single.determinant().unwrap_err(), MathError::UnsupportedShape);
    let column = Matrix::new(4, 1, vec![1.0; 4]).unwrap();
    assert_eq!(column.determinant().unwrap_err(), MathError::UnsupportedShape);
}

#[test]
fn the_determinant_is_the_difference_of_the_diagonals() {
    let m = Matrix::new(2, 2, vec![1.0, 2.0, 3.0, 4.0]).unwrap();
    assert_eq!(m.determinant().unwrap(), -2.0);
    let singular = Matrix::new(2, 2, vec![1.0, 2.0, 2.0, 4.0]).unwrap();
    assert_eq!(singular.determinant().unwrap(), 0.0);
}

#[test]
fn the_inverse_is_the_adjugate_over_the_determinant() {
    let m = Matrix::new(2, 2, vec![4.0, 7.0, 2.0, 6.0]).unwrap();
    let inverse = m.inverse().unwrap().unwrap();
    assert_eq!((inverse.rows(), inverse.cols()), (2, 2));
    let r = 1.0 / 10.0;
    assert_eq!(*inverse.elements(), vec![6.0 * r, -7.0 * r, -2.0 * r, 4.0 * r]);
}

#[test]
fn the_inverse_gives_the_identity_from_either_side() {
    for elements in [vec![4.0, 7.0, 2.0, 6.0], vec![1.0, 2.0, 3.0, 4.0], vec![0.5, -1.5, 2.0, 8.0]] {
        let m = Matrix::new(2, 2, elements).unwrap();
        let inverse = m.inverse().unwrap().unwrap();
        for product in [m.multiply(&inverse).unwrap(), inverse.multiply(&m).unwrap()] {
            for i in 0..2 {
                for j in 0..2 {
                    let wanted = if i == j { 1.0 } else { 0.0 };
                    assert!(close(product.get(i, j).unwrap(), wanted, 1e-10));
                }
            }
        }
    }
}

#[test]
fn a_matrix_with_determinant_zero_has_no_inverse() {
    let singular = Matrix::new(2, 2, vec![1.0, 2.0, 2.0, 4.0]).unwrap();
    assert!(singular.inverse().unwrap().is_none());
    let zero = Matrix::new(2, 2, vec![0.0; 4]).unwrap();
    assert!(zero.inverse().unwrap().is_none());
}

#[test]
fn the_inverse_is_for_two_by_two_only() {
    for (rows, cols) in [(3, 3), (1, 4), (4, 1), (2, 3), (1, 1), (0, 0)] {
        let m = Matrix::new(rows, cols, vec![1.0; rows * cols]).unwrap();
        assert_eq!(m.inverse().unwrap_err(), MathError::UnsupportedShape);
    }
}

#[test]
fn a_singular_matrix_is_told_apart_from_a_matrix_of_another_shape() {
    let singular = Matrix::new(2, 2, vec![1.0, 2.0, 2.0, 4.0]).unwrap();
    assert!(matches!(singular.inverse(), Ok(None)));
    let wide = Matrix::new(2, 3, vec![1.0; 6]).unwrap();
    assert!(matches!(wide.inverse(), Err(MathError::UnsupportedShape)));
}
