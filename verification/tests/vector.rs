use matmul::{dot_product, MatrixError, Vector};

#[test]
fn test_dot_product_equal_lengths() {
    let a = Vector::new(vec![1, 2, 3]);
    let b = Vector::new(vec![4, 5, 6]);
    assert_eq!(dot_product(a, b).unwrap(), 32);
}

#[test]
fn test_dot_product_empty() {
    let a = Vector::new(vec![]);
    let b = Vector::new(vec![]);
    assert_eq!(dot_product(a, b).unwrap(), 0);
}

#[test]
fn test_dot_product_negative_elements() {
    let a = Vector::new(vec![-1, 2, -3]);
    let b = Vector::new(vec![4, -5, 6]);
    assert_eq!(dot_product(a, b).unwrap(), -32);
}

#[test]
fn test_dot_product_unequal_lengths() {
    let a = Vector::new(vec![1, 2, 3]);
    let b = Vector::new(vec![4, 5]);
    assert!(matches!(
        dot_product(a, b),
        Err(MatrixError::DimensionMismatch)
    ));
}

#[test]
fn test_vector_len() {
    let a = Vector::new(vec![9, 8, 7]);
    assert_eq!(a.len(), 3);
    assert_eq!(*a.data(), vec![9, 8, 7]);
}
