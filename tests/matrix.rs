use rusty_gaym_engine::{Matrix, Vector};

fn xyz(x: f32, y: f32, z: f32) -> Vector<f32> {
    Vector::new(vec![x, y, z])
}

fn dot_i64(a: &Vector<i64>, b: &Vector<i64>) -> i64 {
    a.elements.iter().zip(b.elements.iter()).map(|(x, y)| x * y).sum()
}

#[test]
fn matrix_matrix_from_rows() {
    let m = Matrix::from_rows(vec![
        xyz(1.0, 2.0, 3.0),
        xyz(3.0, 4.0, 5.0),
        xyz(5.0, 6.0, 7.0),
    ])
    .unwrap();

    assert_eq!(m.get_row(0).unwrap(), xyz(1.0, 2.0, 3.0));
    assert_eq!(m.get_row(1).unwrap(), xyz(3.0, 4.0, 5.0));
    assert_eq!(m.get_row(2).unwrap(), xyz(5.0, 6.0, 7.0));
}

#[test]
fn matrix_matrix_swap_cols() {
    let m = Matrix::from_rows(vec![
        xyz(1.0, 2.0, 3.0),
        xyz(3.0, 4.0, 5.0),
        xyz(5.0, 6.0, 7.0),
    ])
    .unwrap();
    let mut m_clone = m.clone();
    m_clone.swap_cols(1, 2).unwrap();

    assert_eq!(m_clone.get_col(1), Some(xyz(3.0, 5.0, 7.0)));
    assert_eq!(m_clone.get_col(2), Some(xyz(2.0, 4.0, 6.0)));
}

#[test]
fn matrix_matrix_get_minor() {
    let m = Matrix::from_rows(vec![
        xyz(1.0, 2.0, 3.0),
        xyz(3.0, 4.0, 5.0),
        xyz(5.0, 6.0, 15.0),
    ])
    .unwrap();

    let minor = Matrix::from_rows(vec![
        Vector::new(vec![1.0, 3.0]),
        Vector::new(vec![5.0, 15.0]),
    ])
    .unwrap();

    let expected_minor = m.get_minor(vec![1], vec![1]);
    assert_eq!(minor, expected_minor);
}

#[test]
fn matrix_matrix_equal() {
    let a = Matrix::from_rows(vec![
        xyz(1.0, 2.0, 3.0),
        xyz(3.0, 4.0, 5.0),
        xyz(5.0, 6.0, 15.0),
    ])
    .unwrap();

    let b = Matrix::from_cols(vec![
        xyz(1.0, 3.0, 5.0),
        xyz(2.0, 4.0, 6.0),
        xyz(3.0, 5.0, 15.0),
    ])
    .unwrap();

    assert_eq!(a, b);
}

#[test]
fn matrix_matrix_not_equal() {
    let a = Matrix::from_rows(vec![
        xyz(1.0, 2.0, 3.0),
        xyz(3.0, 4.0, 5.0),
        xyz(5.0, 6.0, 15.0),
    ])
    .unwrap();
    let b = Matrix::from_rule(3, 4, |_, _| 0.0f32);

    assert_ne!(a, b);
}

#[test]
fn matrix_matrix_equal2() {
    let a = Matrix::from_rule(2, 4, |i, j| (i * 4 + j) as f32);
    let b = a.clone();

    assert_eq!(a, b);
}

#[test]
fn matrix_matrix_equal3() {
    let a = Matrix::from_rule(2, 4, |i, j| (i * 4 + j) as f32);
    let mut b = a.clone();
    b.set(1, 1, 100.0).unwrap();

    assert_ne!(a, b);
}

#[test]
fn from_rule_fills_by_position() {
    let m = Matrix::from_rule(3, 4, |i, j| (i + j) as f32);
    let expected = Matrix::from_rows(vec![
        Vector::new(vec![0.0, 1.0, 2.0, 3.0]),
        Vector::new(vec![1.0, 2.0, 3.0, 4.0]),
        Vector::new(vec![2.0, 3.0, 4.0, 5.0]),
    ])
    .unwrap();
    assert_eq!(m, expected);
    assert_eq!(m.rows_count(), 3);
    assert_eq!(m.cols_count(), 4);
}

#[test]
fn from_rule_with_a_zero_count_is_empty() {
    assert_eq!(Matrix::from_rule(0, 5, |_, _| 1u8), Matrix::empty());
    assert_eq!(Matrix::from_rule(5, 0, |_, _| 1u8), Matrix::empty());
    let e: Matrix<u8> = Matrix::empty();
    assert_eq!(e.rows_count(), 0);
    assert_eq!(e.cols_count(), 0);
}

#[test]
fn new_reads_entries_row_by_row() {
    let m = Matrix::new(2, 3, vec![1, 2, 3, 4, 5, 6]).unwrap();
    assert_eq!(m.get(0, 2), Some(3));
    assert_eq!(m.get(1, 0), Some(4));
    assert_eq!(m.get(2, 0), None);
    assert_eq!(m.get(0, 3), None);
}

#[test]
fn new_rejects_a_wrong_number_of_entries() {
    assert!(Matrix::new(3, 3, vec![1.0, 2.0, 3.0, 4.0]).is_none());
    assert!(Matrix::new_cloned(2, 2, vec![1, 2, 3]).is_none());
    assert!(Matrix::new(usize::MAX, 2, vec![1u8, 2]).is_none());
    assert_eq!(Matrix::new(0, 4, Vec::<u8>::new()), Some(Matrix::empty()));
}

#[test]
fn new_cloned_matches_new() {
    let a = Matrix::new_cloned(2, 2, vec![1, 2, 3, 4]).unwrap();
    let b = Matrix::new(2, 2, vec![1, 2, 3, 4]).unwrap();
    assert_eq!(a, b);
}

#[test]
fn from_rows_rejects_rows_of_different_dimensions() {
    let r = Matrix::from_rows(vec![Vector::new(vec![1, 2]), Vector::new(vec![3])]);
    assert!(r.is_none());
    let c = Matrix::from_cols(vec![Vector::new(vec![1, 2]), Vector::new(vec![3])]);
    assert!(c.is_none());
}

#[test]
fn from_rows_without_components_is_empty() {
    let r: Matrix<u8> = Matrix::from_rows(vec![Vector::new(vec![]), Vector::new(vec![])]).unwrap();
    assert_eq!(r, Matrix::empty());
    let none: Matrix<u8> = Matrix::from_rows(vec![]).unwrap();
    assert_eq!(none, Matrix::empty());
}

#[test]
fn from_row_and_from_col_shapes() {
    let r = Matrix::from_row(Vector::new(vec![1, 2, 3]));
    assert_eq!((r.rows_count(), r.cols_count()), (1, 3));
    let c = Matrix::from_col(Vector::new(vec![1, 2, 3]));
    assert_eq!((c.rows_count(), c.cols_count()), (3, 1));
    assert_eq!(c.get(2, 0), Some(3));
    assert_eq!(c, r.transposed());
}

#[test]
fn transposed_swaps_rows_and_columns() {
    let m = Matrix::new(2, 3, vec![1, 2, 3, 4, 5, 6]).unwrap();
    let t = m.transposed();
    assert_eq!(t, Matrix::new(3, 2, vec![1, 4, 2, 5, 3, 6]).unwrap());
    assert_eq!(t.transposed(), m);
}

#[test]
fn get_row_and_col_out_of_range() {
    let m = Matrix::new(2, 3, vec![1, 2, 3, 4, 5, 6]).unwrap();
    assert_eq!(m.get_row(1), Some(Vector::new(vec![4, 5, 6])));
    assert_eq!(m.get_row(2), None);
    assert_eq!(m.get_col(2), Some(Vector::new(vec![3, 6])));
    assert_eq!(m.get_col(3), None);
}

#[test]
fn set_row_checks_the_dimension() {
    let mut m = Matrix::new(2, 3, vec![1, 2, 3, 4, 5, 6]).unwrap();
    assert_eq!(m.set_row(0, Vector::new(vec![7, 8])), Err(()));
    assert_eq!(m.set_row(2, Vector::new(vec![7, 8, 9])), Err(()));
    assert_eq!(m.set_row(1, Vector::new(vec![7, 8, 9])), Ok(()));
    assert_eq!(m, Matrix::new(2, 3, vec![1, 2, 3, 7, 8, 9]).unwrap());
}

#[test]
fn set_col_checks_the_dimension() {
    let mut m = Matrix::new(2, 3, vec![1, 2, 3, 4, 5, 6]).unwrap();
    assert_eq!(m.set_col(0, Vector::new(vec![7, 8, 9])), Err(()));
    assert_eq!(m.set_col(3, Vector::new(vec![7, 8])), Err(()));
    assert_eq!(m.set_col(2, Vector::new(vec![7, 8])), Ok(()));
    assert_eq!(m, Matrix::new(2, 3, vec![1, 2, 7, 4, 5, 8]).unwrap());
}

#[test]
fn set_outside_fails() {
    let mut m = Matrix::new(2, 2, vec![1, 2, 3, 4]).unwrap();
    assert_eq!(m.set(2, 0, 9), Err(()));
    assert_eq!(m.set(0, 2, 9), Err(()));
    assert_eq!(m, Matrix::new(2, 2, vec![1, 2, 3, 4]).unwrap());
}

#[test]
fn swap_rows_of_a_wide_matrix() {
    let mut m = Matrix::new(2, 3, vec![1, 2, 3, 4, 5, 6]).unwrap();
    assert_eq!(m.swap_rows(0, 1), Ok(()));
    assert_eq!(m, Matrix::new(2, 3, vec![4, 5, 6, 1, 2, 3]).unwrap());
    assert_eq!(m.swap_rows(0, 2), Err(()));
    assert_eq!(m.swap_cols(0, 3), Err(()));
}

#[test]
fn get_minor_excluding_everything_is_empty() {
    let m = Matrix::new(2, 2, vec![1, 2, 3, 4]).unwrap();
    assert_eq!(m.get_minor(vec![0, 1], vec![]), Matrix::empty());
    assert_eq!(m.get_minor(vec![], vec![1, 0, 7]), Matrix::empty());
    assert_eq!(m.get_minor(vec![5], vec![]), m);
}

#[test]
fn multiply_integer_matrices() {
    let a = Matrix::new(2, 2, vec![1i64, 2, 3, 4]).unwrap();
    let b = Matrix::new(2, 2, vec![5i64, 6, 7, 8]).unwrap();
    let p = a.multiply(&b, dot_i64).unwrap();
    assert_eq!(p, Matrix::new(2, 2, vec![19, 22, 43, 50]).unwrap());
    let c = Matrix::new(2, 3, vec![1i64, 0, 2, 0, 1, 0]).unwrap();
    let q = a.multiply(&c, dot_i64).unwrap();
    assert_eq!(q, Matrix::new(2, 3, vec![1, 2, 2, 3, 4, 6]).unwrap());
}

#[test]
fn multiply_rejects_mismatched_shapes() {
    let a = Matrix::new(2, 3, vec![1i64, 2, 3, 4, 5, 6]).unwrap();
    assert!(a.multiply(&a, dot_i64).is_none());
    assert!(a.multiply_by_vector(&Vector::new(vec![1, 2]), dot_i64).is_none());
}

#[test]
fn multiply_by_vector_integer() {
    let a = Matrix::new(2, 3, vec![1i64, 2, 3, 4, 5, 6]).unwrap();
    let v = a.multiply_by_vector(&Vector::new(vec![1, 0, -1]), dot_i64).unwrap();
    assert_eq!(v, Vector::new(vec![-2, -2]));
}

#[test]
fn zip_with_and_map_keep_the_shape() {
    let a = Matrix::new(2, 2, vec![1, 2, 3, 4]).unwrap();
    let b = Matrix::new(2, 2, vec![10, 20, 30, 40]).unwrap();
    assert_eq!(a.zip_with(&b, |x, y| x + y), Matrix::new(2, 2, vec![11, 22, 33, 44]));
    assert_eq!(a.map(|x| -x), Matrix::new(2, 2, vec![-1, -2, -3, -4]).unwrap());
    let c = Matrix::new(1, 2, vec![1, 2]).unwrap();
    assert!(a.zip_with(&c, |x, y| x + y).is_none());
}

#[test]
fn matrices_approximately_equal() {
    let a = Matrix::new(1, 2, vec![1.0f32, 2.0]).unwrap();
    let b = Matrix::new(1, 2, vec![1.000001f32, 2.0]).unwrap();
    let close = |x: &f32, y: &f32| (x - y).abs() < 1e-5;
    assert!(a.approximately_equal(&b, close));
    let c = Matrix::new(1, 2, vec![1.1f32, 2.0]).unwrap();
    assert!(!a.approximately_equal(&c, close));
    let d = Matrix::new(2, 1, vec![1.0f32, 2.0]).unwrap();
    assert!(!a.approximately_equal(&d, close));
}

#[test]
fn test() {
    let distances: Matrix<Option<f32>> = Matrix::from_rule(5, 5, |_, _| None);
    assert_eq!(distances.rows_count(), 5);
    assert_eq!(distances.cols_count(), 5);
    assert_eq!(distances.get_row(4), Some(Vector::new(vec![None; 5])));
}
