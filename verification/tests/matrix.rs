use matmul::{assemble, multiply, process_task, Matrix, MatrixError, MsgInput, MsgOutput, Vector};

// C[0][0] = 1 * 1 + 2 * 3 + 3 * 5 = 22
// C[0][1] = 1 * 2 + 2 * 4 + 3 * 6 = 28
// C[1][0] = 4 * 1 + 5 * 3 + 6 * 5 = 49
// C[1][1] = 4 * 2 + 5 * 4 + 6 * 6 = 64
#[test]
fn test_matrix_multiply() {
    let a = Matrix::new(2, 3, vec![1, 2, 3, 4, 5, 6]);
    let b = Matrix::new(3, 2, vec![1, 2, 3, 4, 5, 6]);
    let c = multiply(&a, &b).unwrap();
    assert_eq!(c.rows(), 2);
    assert_eq!(c.cols(), 2);
    assert_eq!(c.data().as_slice(), &[22, 28, 49, 64]);
    assert_eq!(*c.data(), vec![22, 28, 49, 64]);
    assert_eq!(
        c.debug_string(),
        "Matrix (rows: 2, cols: 2, data: {22 28, 49 64})"
    );
}

#[test]
fn test_matrix_display() {
    let a = Matrix::new(2, 3, vec![1, 2, 3, 4, 5, 6]);
    assert_eq!(
        a.debug_string(),
        "Matrix (rows: 2, cols: 3, data: {1 2 3, 4 5 6})"
    );
}

// c[0][0] = 1 * 1 + 2 * 3 = 7
// c[0][1] = 1 * 2 + 2 * 4 = 10
// c[1][0] = 3 * 1 + 4 * 3 = 15
// c[1][1] = 3 * 2 + 4 * 4 = 22
#[test]
fn test_matrix_display2() {
    let a = Matrix::new(2, 2, vec![1, 2, 3, 4]);
    let b = Matrix::new(2, 2, vec![1, 2, 3, 4]);
    let c = multiply(&a, &b).unwrap();
    assert_eq!(c.rows(), 2);
    assert_eq!(c.cols(), 2);
    assert_eq!(c.data().as_slice(), &[7, 10, 15, 22]);
    assert_eq!(*c.data(), vec![7, 10, 15, 22]);
    assert_eq!(
        c.debug_string(),
        "Matrix (rows: 2, cols: 2, data: {7 10, 15 22})"
    );
}

#[test]
fn test_a_can_not_multiply_b() {
    let a = Matrix::new(2, 3, vec![1, 2, 3, 4, 5, 6]);
    let b = Matrix::new(2, 2, vec![1, 2, 3, 4]);
    let c = multiply(&a, &b);
    assert!(c.is_err());
}

#[test]
#[should_panic]
fn test_a_can_not_multiply_b_panic() {
    let a = Matrix::new(2, 3, vec![1, 2, 3, 4, 5, 6]);
    let b = Matrix::new(2, 2, vec![1, 2, 3, 4]);
    let _ = multiply(&a, &b).expect("Matrix multiply error");
}

#[test]
fn test_mismatch_error_kind() {
    let a = Matrix::new(2, 3, vec![1, 2, 3, 4, 5, 6]);
    let b = Matrix::new(2, 2, vec![1, 2, 3, 4]);
    assert!(matches!(multiply(&a, &b), Err(MatrixError::DimensionMismatch)));
}

#[test]
fn test_one_by_one_multiply() {
    // A 1x1 product reduces to scalar multiplication: a single task.
    let a = Matrix::new(1, 1, vec![7]);
    let b = Matrix::new(1, 1, vec![6]);
    let c = multiply(&a, &b).unwrap();
    assert_eq!(c.rows(), 1);
    assert_eq!(c.cols(), 1);
    assert_eq!(*c.data(), vec![42]);
}

#[test]
fn test_multiply_idempotent() {
    let a = Matrix::new(2, 3, vec![1, -2, 3, -4, 5, -6]);
    let b = Matrix::new(3, 2, vec![6, -5, 4, -3, 2, -1]);
    let c1 = multiply(&a, &b).unwrap();
    let c2 = multiply(&a, &b).unwrap();
    assert_eq!(*c1.data(), *c2.data());
    assert_eq!(c1.rows(), c2.rows());
    assert_eq!(c1.cols(), c2.cols());
}

#[test]
fn test_display_negative_elements() {
    let m = Matrix::new(1, 3, vec![-5, 0, 123]);
    assert_eq!(m.display_string(), "{-5 0 123}");
    assert_eq!(
        m.debug_string(),
        "Matrix (rows: 1, cols: 3, data: {-5 0 123})"
    );
}

#[test]
fn test_empty_matrix() {
    let a = Matrix::new(0, 0, vec![]);
    let b = Matrix::new(0, 0, vec![]);
    assert_eq!(a.display_string(), "{}");
    let c = multiply(&a, &b).unwrap();
    assert_eq!(c.rows(), 0);
    assert_eq!(c.cols(), 0);
    assert!(c.data().is_empty());
}

#[test]
fn test_display_extreme_value() {
    let m = Matrix::new(1, 1, vec![i64::MIN]);
    assert_eq!(m.display_string(), "{-9223372036854775808}");
    let m = Matrix::new(1, 1, vec![i64::MAX]);
    assert_eq!(m.display_string(), "{9223372036854775807}");
}

#[test]
fn test_row_and_col_extraction() {
    let m = Matrix::new(2, 3, vec![1, 2, 3, 4, 5, 6]);
    assert_eq!(*m.row_vector(1).data(), vec![4, 5, 6]);
    // A column is a strided gather out of the row-major buffer.
    assert_eq!(*m.col_vector(0).data(), vec![1, 4]);
    assert_eq!(*m.col_vector(2).data(), vec![3, 6]);
}

#[test]
fn test_process_task_tags_result() {
    let task = MsgInput::new(5, Vector::new(vec![1, 2]), Vector::new(vec![3, 4]));
    let out = process_task(task).unwrap();
    assert_eq!(out.idx, 5);
    assert_eq!(out.value, 11);
}

#[test]
fn test_process_task_mismatch() {
    let task = MsgInput::new(0, Vector::new(vec![1, 2, 3]), Vector::new(vec![3, 4]));
    assert!(matches!(
        process_task(task),
        Err(MatrixError::DimensionMismatch)
    ));
}

#[test]
fn test_assemble_out_of_order() {
    // Placement relies solely on the carried index, whatever the
    // arrival order of the results.
    let outputs = vec![
        MsgOutput { idx: 3, value: 40 },
        MsgOutput { idx: 0, value: 10 },
        MsgOutput { idx: 2, value: 30 },
        MsgOutput { idx: 1, value: 20 },
    ];
    let m = assemble(2, 2, outputs).unwrap();
    assert_eq!(*m.data(), vec![10, 20, 30, 40]);
}

#[test]
fn test_assemble_duplicate_index() {
    let outputs = vec![
        MsgOutput { idx: 0, value: 10 },
        MsgOutput { idx: 0, value: 20 },
    ];
    assert!(matches!(
        assemble(1, 2, outputs),
        Err(MatrixError::WorkerCommunicationFailure)
    ));
}

#[test]
fn test_assemble_missing_result() {
    let outputs = vec![MsgOutput { idx: 0, value: 10 }];
    assert!(matches!(
        assemble(1, 2, outputs),
        Err(MatrixError::WorkerCommunicationFailure)
    ));
}

#[test]
fn test_assemble_index_out_of_range() {
    let outputs = vec![
        MsgOutput { idx: 0, value: 10 },
        MsgOutput { idx: 2, value: 20 },
    ];
    assert!(matches!(
        assemble(1, 2, outputs),
        Err(MatrixError::WorkerCommunicationFailure)
    ));
}
