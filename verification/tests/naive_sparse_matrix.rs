use matrixcore::Matrix;
use matrixcore::NaiveSparseMatrix;
use matrixcore::Scalar;
use std::ops::Div;

#[test]
fn naive_sparse_matrix_test_add() {
    let mut hm1 = Vec::new();
    hm1.push(((1, 2), 10));
    hm1.push(((2, 1), 5));
    hm1.push(((0, 0), 7));

    let mut hm2 = Vec::new();
    hm2.push(((0, 0), 14));
    hm2.push(((2, 2), 20));

    let mut hm3 = Vec::new();
    hm3.push(((0, 0), 21));
    hm3.push(((1, 2), 10));
    hm3.push(((2, 1), 5));
    hm3.push(((2, 2), 20));

    let m1 = NaiveSparseMatrix::new(3, 3, hm1);
    let m2 = NaiveSparseMatrix::new(3, 3, hm2);
    let m3 = NaiveSparseMatrix::new(3, 3, hm3);
    assert_eq!(m1 + m2, m3);
}

#[test]
fn naive_sparse_matrix_test_add_scalar() {
    let mut hm1 = Vec::new();
    hm1.push(((1, 2), 10));
    hm1.push(((2, 1), 5));
    hm1.push(((0, 0), 7));

    let mut hm2 = Vec::new();
    hm2.push(((0, 0), 13));
    hm2.push(((0, 1), 6));
    hm2.push(((0, 2), 6));
    hm2.push(((1, 0), 6));
    hm2.push(((1, 1), 6));
    hm2.push(((1, 2), 16));
    hm2.push(((2, 0), 6));
    hm2.push(((2, 1), 11));
    hm2.push(((2, 2), 6));

    let m1 = NaiveSparseMatrix::new(3, 3, hm1);
    let m4 = NaiveSparseMatrix::new(3, 3, hm2);
    assert_eq!(m1 + 6, m4);
}

#[test]
fn naive_sparse_matrix_test_sub() {
    let mut hm1 = Vec::new();
    hm1.push(((1, 2), 10));
    hm1.push(((2, 1), 5));
    hm1.push(((0, 0), 7));

    let mut hm2 = Vec::new();
    hm2.push(((0, 0), 14));
    hm2.push(((2, 2), 20));

    let mut hm3 = Vec::new();
    hm3.push(((0, 0), -7));
    hm3.push(((1, 2), 10));
    hm3.push(((2, 1), 5));
    hm3.push(((2, 2), -20));

    let m1 = NaiveSparseMatrix::new(3, 3, hm1);
    let m2 = NaiveSparseMatrix::new(3, 3, hm2);
    let m3 = NaiveSparseMatrix::new(3, 3, hm3);
    assert_eq!(m1 - m2, m3);
}

#[test]
fn naive_sparse_matrix_test_sub_scalar() {
    let mut hm1 = Vec::new();
    hm1.push(((1, 2), 10));
    hm1.push(((2, 1), 5));
    hm1.push(((0, 0), 7));

    let mut hm2 = Vec::new();
    hm2.push(((0, 0), -5));
    hm2.push(((0, 1), -12));
    hm2.push(((0, 2), -12));
    hm2.push(((1, 0), -12));
    hm2.push(((1, 1), -12));
    hm2.push(((1, 2), -2));
    hm2.push(((2, 0), -12));
    hm2.push(((2, 1), -7));
    hm2.push(((2, 2), -12));

    let m1 = NaiveSparseMatrix::new(3, 3, hm1);
    let m4 = NaiveSparseMatrix::new(3, 3, hm2);
    assert_eq!(m1 - 12, m4);
}

#[test]
fn naive_sparse_matrix_test_mul_scalar() {
    let mut hm1 = Vec::new();
    hm1.push(((1, 2), 10));
    hm1.push(((2, 1), 5));
    hm1.push(((0, 0), 7));

    let mut hm2 = Vec::new();
    hm2.push(((0, 0), 14));
    hm2.push(((1, 2), 20));
    hm2.push(((2, 1), 10));

    let m1 = NaiveSparseMatrix::new(3, 3, hm1);
    let m4 = NaiveSparseMatrix::new(3, 3, hm2);
    assert_eq!(m1 * 2, m4);
}

#[test]
fn naive_sparse_matrix_test_element_wise_mul() {
    let mut hm1 = Vec::new();
    hm1.push(((1, 2), 10));
    hm1.push(((2, 1), 5));
    hm1.push(((0, 0), 7));

    let mut hm2 = Vec::new();
    hm2.push(((0, 0), 2));
    hm2.push(((2, 2), 20));

    let mut hm3 = Vec::new();
    hm3.push(((0, 0), 14));

    let m1 = NaiveSparseMatrix::new(3, 3, hm1);
    let m2 = NaiveSparseMatrix::new(3, 3, hm2);
    let m3 = NaiveSparseMatrix::new(3, 3, hm3);
    assert_eq!(m1.element_wise_multiply(m2), m3);
}

#[test]
fn naive_sparse_matrix_test_neg() {
    let mut hm1 = Vec::new();
    hm1.push(((1, 2), 10));
    hm1.push(((2, 1), 5));
    hm1.push(((0, 0), 7));

    let mut hm2 = Vec::new();
    hm2.push(((0, 0), -7));
    hm2.push(((1, 2), -10));
    hm2.push(((2, 1), -5));

    let m1 = NaiveSparseMatrix::new(3, 3, hm1);
    let m4 = NaiveSparseMatrix::new(3, 3, hm2);
    assert_eq!(-m1, m4);
}

/// A floating-point element for the sparse matrix: the library gives the
/// capability to the integer types only.
#[derive(Clone, Copy, PartialEq, Debug)]
struct Real(f64);

impl Scalar for Real {
    fn zero_spec() -> Real {
        Real(0.0)
    }

    fn zero() -> Real {
        Real(0.0)
    }

    fn is_zero(&self) -> bool {
        self.0 == 0.0
    }
}

impl Div for Real {
    type Output = Real;

    fn div(self, rhs: Real) -> Real {
        Real(self.0 / rhs.0)
    }
}

#[test]
fn naive_sparse_matrix_test_scalar_div() {
    let mut hm1 = Vec::new();
    hm1.push(((1, 2), Real(10f64)));
    hm1.push(((2, 1), Real(5f64)));
    hm1.push(((0, 0), Real(7f64)));

    let mut hm2 = Vec::new();
    hm2.push(((0, 0), Real(3.5)));
    hm2.push(((1, 2), Real(5.0)));
    hm2.push(((2, 1), Real(2.5)));

    let m1 = NaiveSparseMatrix::new(3, 3, hm1);
    let m2 = NaiveSparseMatrix::new(3, 3, hm2);
    assert_eq!(m1 / Real(2.0), m2);
}

/// The single-precision counterpart of `Real`.
#[derive(Clone, Copy, PartialEq, Debug)]
struct Single(f32);

impl Scalar for Single {
    fn zero_spec() -> Single {
        Single(0.0)
    }

    fn zero() -> Single {
        Single(0.0)
    }

    fn is_zero(&self) -> bool {
        self.0 == 0.0
    }
}

#[test]
fn naive_sparse_matrix_test_indices_iter() {
    let m1: NaiveSparseMatrix<Single> = NaiveSparseMatrix::new(10, 10, Vec::new());
    let (m, n) = m1.size();
    let mut iter = m1.indices_iter();
    for i in 0..m {
        for j in 0..n {
            let a = iter.next();
            match a {
                Some((u, v)) => println!("{} {}", u, v),
                _ => println!("None"),
            }
            assert_eq!(Some((i, j)), a);
        }
    }

    assert_eq!(None, iter.next())
}
