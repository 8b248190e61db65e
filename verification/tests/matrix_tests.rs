use mtrx_rs::errors::{ConstructionError, DimensionError};
use mtrx_rs::matrix::Matrix;

fn bits(rows: Vec<Vec<f64>>) -> Vec<Vec<u64>> {
    rows.into_iter().map(|r| r.into_iter().map(|x| x.to_bits()).collect()).collect()
}

fn mat(rows: Vec<Vec<f64>>) -> Matrix {
    Matrix::new(bits(rows)).unwrap()
}

fn floats(m: &Matrix) -> Vec<Vec<f64>> {
    m.data.iter().map(|r| r.iter().map(|&b| f64::from_bits(b)).collect()).collect()
}

#[test]
fn test_wrong_dimensions() {
    let a = mat(vec![vec![1.0, 2.0, 3.0]]);
    let b = mat(vec![vec![1.0, 2.0], vec![3.0, 4.0]]);

    let result = a.mul(&b);
    assert!(result.is_err());
}

#[test]
fn test_matrix_mul_first_case() {
    let a = mat(vec![vec![1.0, 2.0, 3.0], vec![4.0, 5.0, 6.0]]);
    let b = mat(vec![vec![7.0, 8.0], vec![9.0, 10.0], vec![11.0, 12.0]]);
    let expected = vec![vec![58.0, 64.0], vec![139.0, 154.0]];

    let result = a.mul(&b).unwrap();
    let result_par = a.mul_par(&b).unwrap();

    assert_eq!(floats(&result), expected);
    assert_eq!(floats(&result_par), expected);
}

#[test]
fn test_matrix_mul_second_case() {
    let a = mat(vec![vec![3.0, 6.0, 9.0], vec![2.0, 4.0, 6.0]]);
    let b = mat(vec![vec![1.0, 2.0], vec![3.0, 4.0], vec![5.0, 6.0]]);
    let expected = vec![vec![66.0, 84.0], vec![44.0, 56.0]];

    let result = a.mul(&b).unwrap();
    let result_par = a.mul_par(&b).unwrap();

    assert_eq!(floats(&result), expected);
    assert_eq!(floats(&result_par), expected);
}

#[test]
fn test_one_by_one() {
    let a = mat(vec![vec![5.0]]);
    let b = mat(vec![vec![3.0]]);

    assert_eq!(floats(&a.mul(&b).unwrap()), vec![vec![15.0]]);
    assert_eq!(floats(&a.mul_par(&b).unwrap()), vec![vec![15.0]]);
}

#[test]
fn test_result_shape() {
    let a = mat(vec![vec![1.0, 2.0], vec![3.0, 4.0], vec![5.0, 6.0]]);
    let b = mat(vec![vec![1.0, 0.0, 2.0, 1.0], vec![0.0, 1.0, 1.0, 2.0]]);

    let m = a.mul(&b).unwrap();
    assert_eq!(m.rows, 3);
    assert_eq!(m.cols, 4);
    assert_eq!(m.data.len(), 3);
    assert!(m.data.iter().all(|r| r.len() == 4));
}

#[test]
fn test_dimension_error_reports_both_counts() {
    let a = mat(vec![vec![1.0, 2.0, 3.0]]);
    let b = mat(vec![vec![1.0, 2.0], vec![3.0, 4.0]]);

    let e = a.mul(&b).unwrap_err();
    assert_eq!(e, DimensionError { left_cols: 3, right_rows: 2 });

    let e_par = a.mul_par(&b).unwrap_err();
    assert_eq!(e_par, DimensionError { left_cols: 3, right_rows: 2 });

    let e_workers = a.mul_par_workers(&b, 2).unwrap_err();
    assert_eq!(e_workers, DimensionError { left_cols: 3, right_rows: 2 });
}

#[test]
fn test_construction_rejects_ragged() {
    let r = Matrix::new(bits(vec![vec![1.0, 2.0], vec![3.0]]));
    assert_eq!(r.unwrap_err(), ConstructionError::RaggedRows);
}

#[test]
fn test_construction_rejects_empty() {
    assert!(Matrix::new(Vec::new()).is_err());
    assert!(Matrix::new(vec![Vec::new()]).is_err());
    assert!(Matrix::new(vec![Vec::new(), Vec::new()]).is_err());
}

#[test]
fn test_construction_accepts_rectangular() {
    let one = mat(vec![vec![5.0]]);
    assert_eq!(one.rows, 1);
    assert_eq!(one.cols, 1);

    let wide = mat(vec![vec![1.0, 2.0, 3.0], vec![4.0, 5.0, 6.0]]);
    assert_eq!(wide.rows, 2);
    assert_eq!(wide.cols, 3);
    assert_eq!(floats(&wide), vec![vec![1.0, 2.0, 3.0], vec![4.0, 5.0, 6.0]]);
}

#[test]
fn test_identity_left_preserves() {
    let a = mat(vec![vec![1.5, -2.25], vec![0.5, 3.0], vec![7.0, 8.0]]);
    let id3 = mat(vec![
        vec![1.0, 0.0, 0.0],
        vec![0.0, 1.0, 0.0],
        vec![0.0, 0.0, 1.0],
    ]);

    let m = id3.mul(&a).unwrap();
    assert!(m == a);
    let m_par = id3.mul_par(&a).unwrap();
    assert!(m_par == a);
}

#[test]
fn test_identity_right_preserves() {
    let a = mat(vec![vec![0.125, 42.0], vec![-1.0, 0.75]]);
    let id2 = mat(vec![vec![1.0, 0.0], vec![0.0, 1.0]]);

    let m = a.mul(&id2).unwrap();
    assert!(m == a);
    let m_par = a.mul_par(&id2).unwrap();
    assert!(m_par == a);
}

#[test]
fn test_sequential_and_parallel_agree_bitwise() {
    let a = mat(vec![
        vec![0.1, 0.2, 0.3, 0.4, 0.5],
        vec![1.1, -2.2, 3.3, -4.4, 5.5],
        vec![0.7, 0.07, 0.007, 0.0007, 7.0],
        vec![9.9, 8.8, 7.7, 6.6, 5.5],
        vec![-0.1, 0.2, -0.3, 0.4, -0.5],
        vec![1e10, 1e-10, 1.0, -1e5, 3.14],
        vec![2.5, 2.5, 2.5, 2.5, 2.5],
    ]);
    let b = mat(vec![
        vec![0.9, 1.1, 0.3],
        vec![-0.8, 2.2, 0.6],
        vec![0.7, -3.3, 0.9],
        vec![-0.6, 4.4, 1.2],
        vec![0.5, -5.5, 1.5],
    ]);

    let seq = a.mul(&b).unwrap();
    let par = a.mul_par(&b).unwrap();
    assert!(seq == par);
    assert_eq!(seq.data, par.data);

    for workers in 1..9usize {
        let w = a.mul_par_workers(&b, workers).unwrap();
        assert!(w == seq);
    }
}

#[test]
fn test_multiply_matches_hardware_accumulation_order() {
    let av = vec![
        vec![0.1, 0.2, 0.3],
        vec![1.0 / 3.0, 2.0 / 7.0, 5.0 / 11.0],
    ];
    let bv = vec![
        vec![0.6, -0.7],
        vec![1.0 / 9.0, 2.0 / 13.0],
        vec![-0.123, 456.789],
    ];
    let mut expected = vec![vec![0.0f64; 2]; 2];
    for i in 0..2 {
        for j in 0..2 {
            for k in 0..3 {
                expected[i][j] += av[i][k] * bv[k][j];
            }
        }
    }

    let a = mat(av);
    let b = mat(bv);
    let seq = a.mul(&b).unwrap();
    let par = a.mul_par(&b).unwrap();

    assert_eq!(seq.data, bits(expected));
    assert_eq!(seq.data, par.data);
}

#[test]
fn test_matrices_compare_bitwise() {
    let a = mat(vec![vec![1.0, 2.0], vec![3.0, 4.0]]);
    let same = mat(vec![vec![1.0, 2.0], vec![3.0, 4.0]]);
    let other = mat(vec![vec![1.0, 2.0], vec![3.0, 5.0]]);
    let shape = mat(vec![vec![1.0, 2.0, 3.0, 4.0]]);

    assert!(a == same);
    assert!(!(a == other));
    assert!(!(a == shape));

    let zero_signs = mat(vec![vec![0.0]]);
    let neg_zero = mat(vec![vec![-0.0]]);
    assert!(!(zero_signs == neg_zero));
}
