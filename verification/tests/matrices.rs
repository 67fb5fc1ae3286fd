use tracer_core::matrices::{
    check_index, check_minor_index, check_mul_compatible, check_square, submatrix3, submatrix4,
    transpose_grid, MatrixError,
};

#[test]
fn test_check_index() {
    assert!(check_index(4, 4, 3, 3).is_ok());
    assert_eq!(check_index(4, 4, 4, 0), Err(MatrixError::IndexError));
    assert_eq!(check_index(4, 4, 0, 4), Err(MatrixError::IndexError));
    assert!(check_index(2, 3, 1, 2).is_ok());
}

#[test]
fn test_check_minor_index() {
    assert!(check_minor_index(3, 3, 2, 2).is_ok());
    assert_eq!(check_minor_index(3, 3, 3, 1), Err(MatrixError::MinorError));
}

#[test]
fn test_check_mul_compatible() {
    assert!(check_mul_compatible(4, 4).is_ok());
    assert_eq!(
        check_mul_compatible(4, 3),
        Err(MatrixError::IncompatibleMultiplication)
    );
}

#[test]
fn test_check_square() {
    assert!(check_square(4, 4).is_ok());
    assert_eq!(check_square(4, 2), Err(MatrixError::DeterminantError));
}

#[test]
fn test_transpose() {
    // The transposition example of the matrix kernel, row-major.
    let m = vec![
        0.0, 9.0, 3.0, 0.0, //
        9.0, 8.0, 0.0, 8.0, //
        1.0, 8.0, 5.0, 3.0, //
        0.0, 0.0, 5.0, 8.0f64,
    ];
    let t = vec![
        0.0, 9.0, 1.0, 0.0, //
        9.0, 8.0, 8.0, 0.0, //
        3.0, 0.0, 5.0, 5.0, //
        0.0, 8.0, 3.0, 8.0f64,
    ];
    assert_eq!(transpose_grid(&m, 4), t);
}

#[test]
fn test_transpose_involution() {
    let m = vec![1u64, 2, 3, 4, 5, 6, 7, 8, 9];
    assert_eq!(transpose_grid(&transpose_grid(&m, 3), 3), m);
}

#[test]
fn test_submatrix4() {
    // Deleting row 2 and column 1 of a 4x4 grid keeps the other entries in
    // their row-major order.
    let m: Vec<u64> = (0..16).collect();
    let s = submatrix4(&m, 2, 1);
    assert_eq!(s, vec![0, 2, 3, 4, 6, 7, 12, 14, 15]);
}

#[test]
fn test_submatrix4_corner() {
    let m: Vec<u64> = (0..16).collect();
    let s = submatrix4(&m, 0, 0);
    assert_eq!(s, vec![5, 6, 7, 9, 10, 11, 13, 14, 15]);
}

#[test]
fn test_submatrix3() {
    let m: Vec<u64> = (0..9).collect();
    let s = submatrix3(&m, 1, 2);
    assert_eq!(s, vec![0, 1, 6, 7]);
}

#[test]
fn test_cofactor_expansion_submatrices() {
    // The 3x3 minors used by the determinant of the 4x4 example matrix.
    let m = vec![
        -2.0, -8.0, 3.0, 5.0, //
        -3.0, 1.0, 7.0, 3.0, //
        1.0, 2.0, -9.0, 6.0, //
        -6.0, 7.0, 7.0, -9.0f64,
    ];
    let s = submatrix4(&m, 0, 0);
    assert_eq!(s, vec![1.0, 7.0, 3.0, 2.0, -9.0, 6.0, 7.0, 7.0, -9.0]);
    let s = submatrix4(&m, 3, 3);
    assert_eq!(s, vec![-2.0, -8.0, 3.0, -3.0, 1.0, 7.0, 1.0, 2.0, -9.0]);
}
