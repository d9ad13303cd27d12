use neural_net::matrix::Matrix;
use neural_net::NetError;

fn m(rows: usize, cols: usize, cells: Vec<Vec<i64>>) -> Matrix<i64> {
    Matrix { rows, cols, data: cells }
}

#[test]
fn zeros_has_shape_and_zero_cells() {
    let z: Matrix<i64> = Matrix::zeros(2, 3);
    assert_eq!(z.rows, 2);
    assert_eq!(z.cols, 3);
    for i in 0..2 {
        for j in 0..3 {
            assert_eq!(z.get(i, j), 0);
        }
    }
}

#[test]
fn from_row_wraps_values() {
    let r = Matrix::from_row(&vec![4i64, 5, 6]);
    assert_eq!(r.rows, 1);
    assert_eq!(r.cols, 3);
    assert_eq!(r.get(0, 0), 4);
    assert_eq!(r.get(0, 2), 6);
}

#[test]
fn from_column_wraps_values() {
    let c = Matrix::from_column(&vec![7i64, 8]);
    assert_eq!(c.rows, 2);
    assert_eq!(c.cols, 1);
    assert_eq!(c.get(0, 0), 7);
    assert_eq!(c.get(1, 0), 8);
}

#[test]
fn transpose_twice_is_identity() {
    let a = m(2, 3, vec![vec![1, 2, 3], vec![4, 5, 6]]);
    let tt = a.transpose().transpose();
    assert_eq!(tt.rows, 2);
    assert_eq!(tt.cols, 3);
    for i in 0..2 {
        for j in 0..3 {
            assert_eq!(tt.get(i, j), a.get(i, j));
        }
    }
}

#[test]
fn transpose_swaps_cells() {
    let a = m(2, 3, vec![vec![1, 2, 3], vec![4, 5, 6]]);
    let t = a.transpose();
    assert_eq!(t.rows, 3);
    assert_eq!(t.cols, 2);
    assert_eq!(t.get(0, 1), 4);
    assert_eq!(t.get(2, 0), 3);
}

#[test]
fn add_then_sub_returns_original() {
    let a = m(2, 2, vec![vec![10, -4], vec![7, 0]]);
    let b = m(2, 2, vec![vec![3, 5], vec![-2, 9]]);
    let sum = a.add(&b).unwrap();
    let back = sum.sub(&b).unwrap();
    for i in 0..2 {
        for j in 0..2 {
            assert_eq!(back.get(i, j), a.get(i, j));
        }
    }
}

#[test]
fn add_rejects_shape_mismatch() {
    let a = m(2, 2, vec![vec![1, 2], vec![3, 4]]);
    let b = m(2, 3, vec![vec![1, 2, 3], vec![4, 5, 6]]);
    assert_eq!(a.add(&b), Err(NetError::ShapeMismatch));
    assert_eq!(a.sub(&b), Err(NetError::ShapeMismatch));
    assert_eq!(a.multiply(&b), Err(NetError::ShapeMismatch));
}

#[test]
fn multiply_is_elementwise() {
    let a = m(2, 2, vec![vec![1, 2], vec![3, 4]]);
    let b = m(2, 2, vec![vec![5, 6], vec![7, 8]]);
    let h = a.multiply(&b).unwrap();
    assert_eq!(h.get(0, 0), 5);
    assert_eq!(h.get(0, 1), 12);
    assert_eq!(h.get(1, 0), 21);
    assert_eq!(h.get(1, 1), 32);
}

#[test]
fn matmul_exact_product() {
    let a = m(2, 2, vec![vec![1, 2], vec![3, 4]]);
    let b = m(2, 2, vec![vec![5, 6], vec![7, 8]]);
    let p = a.matmul(&b).unwrap();
    assert_eq!(p.get(0, 0), 19);
    assert_eq!(p.get(0, 1), 22);
    assert_eq!(p.get(1, 0), 43);
    assert_eq!(p.get(1, 1), 50);
}

#[test]
fn matmul_rectangular_shapes() {
    let a = m(2, 3, vec![vec![1, 0, 2], vec![0, 1, 1]]);
    let b = m(3, 1, vec![vec![3], vec![4], vec![5]]);
    let p = a.matmul(&b).unwrap();
    assert_eq!(p.rows, 2);
    assert_eq!(p.cols, 1);
    assert_eq!(p.get(0, 0), 13);
    assert_eq!(p.get(1, 0), 9);
}

#[test]
fn matmul_rejects_mismatched_inner_dimensions() {
    let a = m(2, 3, vec![vec![1, 2, 3], vec![4, 5, 6]]);
    let b = m(2, 3, vec![vec![1, 2, 3], vec![4, 5, 6]]);
    assert_eq!(a.matmul(&b), Err(NetError::ShapeMismatch));
    let c = m(1, 2, vec![vec![1, 2]]);
    let d = m(1, 2, vec![vec![3, 4]]);
    assert_eq!(c.matmul(&d), Err(NetError::ShapeMismatch));
}

#[test]
fn saturating_scalar_clamps_at_bounds() {
    let a = m(1, 1, vec![vec![i64::MAX]]);
    let b = m(1, 1, vec![vec![1]]);
    assert_eq!(a.add(&b).unwrap().get(0, 0), i64::MAX);
    let c = m(1, 1, vec![vec![i64::MIN]]);
    assert_eq!(c.sub(&b).unwrap().get(0, 0), i64::MIN);
}

#[test]
fn clone_copies_cells() {
    let a = m(2, 2, vec![vec![1, 2], vec![3, 4]]);
    let b = a.clone();
    assert_eq!(b.rows, 2);
    assert_eq!(b.cols, 2);
    for i in 0..2 {
        for j in 0..2 {
            assert_eq!(b.get(i, j), a.get(i, j));
        }
    }
}

#[test]
fn check_shape_accepts_and_rejects() {
    let good = m(2, 2, vec![vec![1, 2], vec![3, 4]]);
    assert!(good.check_shape());
    let ragged = m(2, 2, vec![vec![1, 2], vec![3]]);
    assert!(!ragged.check_shape());
    let wrong_rows = m(3, 2, vec![vec![1, 2], vec![3, 4]]);
    assert!(!wrong_rows.check_shape());
}
