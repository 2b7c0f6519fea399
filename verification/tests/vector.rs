use neuron::error::MathError;
use neuron::vector::Vector;

#[test]
fn test_vector_addition() {
    let v1 = Vector::new(vec![1.0, 2.0, 3.0]);
    let v2 = Vector::new(vec![4.0, 5.0, 6.0]);
    let v3 = v1.add(&v2).unwrap();
    assert_eq!(*v3.elements(), vec![5.0, 7.0, 9.0]);
}

#[test]
fn test_vector_dot_product() {
    let v1 = Vector::new(vec![1.0, 2.0, 3.0]);
    let v2 = Vector::new(vec![4.0, 5.0, 6.0]);
    assert_eq!(v1.dot(&v2).unwrap(), 32.0);
}

#[test]
fn addition_refuses_vectors_of_different_lengths() {
    let v1 = Vector::new(vec![1.0, 2.0, 3.0]);
    let v2 = Vector::new(vec![4.0, 5.0]);
    assert_eq!(v1.add(&v2).unwrap_err(), MathError::DimensionMismatch);
    assert_eq!(v2.add(&v1).unwrap_err(), MathError::DimensionMismatch);
}

#[test]
fn dot_product_refuses_vectors_of_different_lengths() {
    let v1 = Vector::new(vec![1.0, 2.0, 3.0]);
    let v2 = Vector::new(vec![4.0, 5.0]);
    assert_eq!(v1.dot(&v2).unwrap_err(), MathError::DimensionMismatch);
    assert_eq!(v2.dot(&v1).unwrap_err(), MathError::DimensionMismatch);
}

#[test]
fn empty_vectors_add_to_the_empty_vector_and_multiply_to_zero() {
    let v1: Vector<f64> = Vector::new(Vec::new());
    let v2: Vector<f64> = Vector::new(Vec::new());
    assert!(v1.add(&v2).unwrap().elements().is_empty());
    assert_eq!(v1.dot(&v2).unwrap(), 0.0);
}

#[test]
fn addition_leaves_its_operands_as_they_were() {
    let v1 = Vector::new(vec![1.5, -2.0]);
    let v2 = Vector::new(vec![0.25, 8.0]);
    let sum = v1.add(&v2).unwrap();
    assert_eq!(*sum.elements(), vec![1.75, 6.0]);
    assert_eq!(*v1.elements(), vec![1.5, -2.0]);
    assert_eq!(*v2.elements(), vec![0.25, 8.0]);
}

#[test]
fn dot_product_adds_up_in_the_order_of_the_indices() {
    let v1 = Vector::new(vec![1e16, 1.0, -1e16]);
    let v2 = Vector::new(vec![1.0, 1.0, 1.0]);
    assert_eq!(v1.dot(&v2).unwrap(), (0.0 + 1e16 + 1.0) - 1e16);
    assert_eq!(v1.dot(&v2).unwrap(), 0.0);
}

#[test]
fn a_vector_keeps_its_elements_and_its_length() {
    let v = Vector::new(vec![3.0, 1.0, 2.0]);
    assert_eq!(v.len(), 3);
    assert_eq!(*v.elements(), vec![3.0, 1.0, 2.0]);
    let copy = v.clone();
    assert_eq!(*copy.elements(), vec![3.0, 1.0, 2.0]);
}
