use concurrency::{multiply, multiply_with, Error, Matrix};

fn reference_product(a: &[i64], b: &[i64], rows: usize, inner: usize, cols: usize) -> Vec<i64> {
    let mut out = vec![0i64; rows * cols];
    for j in 0..cols {
        for i in 0..rows {
            let mut sum = 0i64;
            for k in (0..inner).rev() {
                sum = sum.wrapping_add(a[i * inner + k].wrapping_mul(b[k * cols + j]));
            }
            out[i * cols + j] = sum;
        }
    }
    out
}

#[test]
fn test_matrix_multiply() {
    let a = Matrix::new(vec![1, 2, 3, 4, 5, 6], 2, 3);
    let b = Matrix::new(vec![1, 2, 3, 4, 5, 6], 3, 2);
    let c = a * b;
    assert_eq!(c.col(), 2);
    assert_eq!(c.row(), 2);
    assert_eq!(c.data(), &vec![22, 28, 49, 64]);
    assert_eq!(c.to_debug_string(), "Matrix(row=2, col=2, {22 28, 49 64})");
    assert_eq!(format!("{:?}", c.data()), "[22, 28, 49, 64]");
}

#[test]
fn test_matrix_display() {
    let a = Matrix::new(vec![1, 2, 3, 4], 2, 2);
    let b = Matrix::new(vec![1, 2, 3, 4], 2, 2);
    let c = a * b;
    assert_eq!(c.data(), &vec![7, 10, 15, 22]);
    assert_eq!(format!("{}", c.to_string()), "{7 10, 15 22}");
}

#[test]
fn test_a_can_not_multiply_b() {
    let a = Matrix::new(vec![1, 2, 3, 4, 5, 6], 2, 3);
    let b = Matrix::new(vec![1, 2, 3, 4], 2, 2);
    let c = multiply(&a, &b);
    assert!(c.is_err());
}

#[test]
#[should_panic]
fn test_a_can_not_multiply_b_panic() {
    let a = Matrix::new(vec![1, 2, 3, 4, 5, 6], 2, 3);
    let b = Matrix::new(vec![1, 2, 3, 4], 2, 2);
    let _c = a * b;
}

#[test]
fn multiply_reports_dimension_mismatch() {
    let a = Matrix::new(vec![1, 2, 3, 4, 5, 6], 2, 3);
    let b = Matrix::new(vec![1, 2, 3, 4], 2, 2);
    match multiply(&a, &b) {
        Err(e) => assert_eq!(e, Error::DimensionMismatch),
        Ok(_) => panic!("shapes 2x3 and 2x2 must not multiply"),
    }
}

#[test]
fn multiply_refuses_every_unfit_pair_of_shapes() {
    for rows in 0..4usize {
        for inner in 0..4usize {
            for other in 0..4usize {
                for cols in 0..4usize {
                    let a = Matrix::new(vec![1i32; rows * inner], rows, inner);
                    let b = Matrix::new(vec![1i32; other * cols], other, cols);
                    let r = multiply(&a, &b);
                    if inner == other {
                        assert!(r.is_ok());
                    } else {
                        assert!(matches!(r, Err(Error::DimensionMismatch)));
                    }
                }
            }
        }
    }
}

#[test]
fn multiply_matches_reference_algorithm() {
    let (rows, inner, cols) = (5usize, 7usize, 3usize);
    let a: Vec<i64> = (0..rows * inner).map(|x| (x as i64) * 37 - 400).collect();
    let b: Vec<i64> = (0..inner * cols).map(|x| 1000 - (x as i64) * 91).collect();
    let expected = reference_product(&a, &b, rows, inner, cols);
    let c = multiply(&Matrix::new(a, rows, inner), &Matrix::new(b, inner, cols)).unwrap();
    assert_eq!(c.data(), &expected);
}

#[test]
fn multiply_keeps_outer_shape() {
    let a = Matrix::new(vec![0i32; 3 * 5], 3, 5);
    let b = Matrix::new(vec![0i32; 5 * 2], 5, 2);
    let c = multiply(&a, &b).unwrap();
    assert_eq!(c.row(), 3);
    assert_eq!(c.col(), 2);
    assert_eq!(c.data().len(), 6);
}

#[test]
fn multiply_wraps_like_the_element_type() {
    let a = Matrix::new(vec![i32::MAX, 2], 1, 2);
    let b = Matrix::new(vec![2, 1], 2, 1);
    let c = multiply(&a, &b).unwrap();
    assert_eq!(c.data(), &vec![i32::MAX.wrapping_mul(2).wrapping_add(2)]);
    assert_eq!(c.data(), &vec![0]);

    let a = Matrix::new(vec![200u8, 100u8], 1, 2);
    let b = Matrix::new(vec![2u8, 3u8], 2, 1);
    let c = multiply(&a, &b).unwrap();
    assert_eq!(c.data(), &vec![188u8]);
}

#[test]
fn multiply_does_not_depend_on_worker_count() {
    let (rows, inner, cols) = (4usize, 3usize, 5usize);
    let a: Vec<i64> = (0..rows * inner).map(|x| x as i64 + 1).collect();
    let b: Vec<i64> = (0..inner * cols).map(|x| 2 * x as i64 - 7).collect();
    let expected = reference_product(&a, &b, rows, inner, cols);
    let ma = Matrix::new(a, rows, inner);
    let mb = Matrix::new(b, inner, cols);
    for workers in [1usize, 2, 4, 17] {
        let c = multiply_with(&ma, &mb, workers).unwrap();
        assert_eq!(c.data(), &expected);
        assert_eq!(c.row(), rows);
        assert_eq!(c.col(), cols);
    }
}

#[test]
fn zero_length_rows_reduce_to_zero() {
    let a: Matrix<i32> = Matrix::new(vec![], 2, 0);
    let b: Matrix<i32> = Matrix::new(vec![], 0, 3);
    let c = multiply(&a, &b).unwrap();
    assert_eq!(c.row(), 2);
    assert_eq!(c.col(), 3);
    assert_eq!(c.data(), &vec![0, 0, 0, 0, 0, 0]);
}

#[test]
fn empty_product_has_no_cells() {
    let a: Matrix<i32> = Matrix::new(vec![], 0, 3);
    let b: Matrix<i32> = Matrix::new(vec![1, 2, 3, 4, 5, 6], 3, 2);
    let c = multiply(&a, &b).unwrap();
    assert_eq!(c.row(), 0);
    assert_eq!(c.col(), 2);
    assert!(c.data().is_empty());
    assert_eq!(c.to_string(), "{}");
}

#[test]
fn text_of_matrices() {
    let m = Matrix::new(vec![1, 2, 3, 4, 5, 6], 2, 3);
    assert_eq!(m.to_string(), "{1 2 3, 4 5 6}");
    assert_eq!(m.to_debug_string(), "Matrix(row=2, col=3, {1 2 3, 4 5 6})");
    let m = Matrix::new(vec![1, 2, 3, 4, 5, 6], 3, 2);
    assert_eq!(m.to_string(), "{1 2, 3 4, 5 6}");
    let m = Matrix::new(vec![-7i64, 0, 120, i64::MIN], 1, 4);
    assert_eq!(m.to_string(), "{-7 0 120 -9223372036854775808}");
    let m = Matrix::new(vec![u64::MAX], 1, 1);
    assert_eq!(m.to_string(), "{18446744073709551615}");
    let m: Matrix<i32> = Matrix::new(vec![], 3, 0);
    assert_eq!(m.to_string(), "{, , }");
    assert_eq!(m.to_debug_string(), "Matrix(row=3, col=0, {, , })");
}

#[test]
fn rows_and_columns_are_cut_out() {
    let m = Matrix::new(vec![1, 2, 3, 4, 5, 6], 2, 3);
    assert_eq!(m.row_vector(0).as_slice(), &[1, 2, 3]);
    assert_eq!(m.row_vector(1).as_slice(), &[4, 5, 6]);
    assert_eq!(m.col_vector(0).as_slice(), &[1, 4]);
    assert_eq!(m.col_vector(2).as_slice(), &[3, 6]);
}
