use matrixcore::DenseMatrix;
use matrixcore::IndicesIter;
use matrixcore::Matrix;
use matrixcore::NaiveSparseMatrix;
use matrixcore::Scalar;
use matrixcore::ShapeMismatch;

fn sparse(m: usize, n: usize, entries: &[((usize, usize), i32)]) -> NaiveSparseMatrix<i32> {
    NaiveSparseMatrix::new(m, n, entries.to_vec())
}

#[test]
fn scalar_zero_is_the_integer_zero() {
    assert_eq!(<i32 as Scalar>::zero(), 0i32);
    assert_eq!(<i8 as Scalar>::zero(), 0i8);
    assert_eq!(<u64 as Scalar>::zero(), 0u64);
    assert_eq!(<usize as Scalar>::zero(), 0usize);
    assert_eq!(<i128 as Scalar>::zero(), 0i128);
}

#[test]
fn scalar_is_zero_tells_zero_from_the_rest() {
    assert!(Scalar::is_zero(&0i32));
    assert!(!Scalar::is_zero(&5i32));
    assert!(!Scalar::is_zero(&-1i64));
    assert!(Scalar::is_zero(&0u8));
    assert!(!Scalar::is_zero(&255u8));
    assert!(!Scalar::is_zero(&u128::MAX));
}

#[test]
fn try_new_takes_a_list_that_fills_the_shape() {
    let built = DenseMatrix::try_new(2, 3, vec![1, 2, 3, 4, 5, 6]);
    assert_eq!(built, Ok(DenseMatrix::new(2, 3, vec![1, 2, 3, 4, 5, 6])));
}

#[test]
fn try_new_refuses_a_list_of_another_length() {
    assert_eq!(DenseMatrix::try_new(2, 3, vec![1, 2, 3, 4, 5]), Err(ShapeMismatch));
    assert_eq!(DenseMatrix::try_new(2, 3, vec![1, 2, 3, 4, 5, 6, 7]), Err(ShapeMismatch));
    assert_eq!(DenseMatrix::<i32>::try_new(1, 1, Vec::new()), Err(ShapeMismatch));
}

#[test]
fn try_new_refuses_a_shape_too_large_to_count() {
    assert_eq!(DenseMatrix::try_new(usize::MAX, 2, vec![1, 2]), Err(ShapeMismatch));
}

#[test]
fn try_new_takes_an_empty_shape() {
    let built = DenseMatrix::<i32>::try_new(0, 5, Vec::new());
    assert!(built.is_ok());
    assert_eq!(built.unwrap().size(), (0, 5));
}

#[test]
fn adding_dense_matrices_of_different_shapes_is_refused() {
    let a = DenseMatrix::from_elem(2, 3, 1);
    let b = DenseMatrix::from_elem(3, 2, 1);
    assert_eq!(a.try_binary_op(b, |(x, y)| *x + *y), Err(ShapeMismatch));
}

#[test]
fn adding_sparse_matrices_of_different_shapes_is_refused() {
    let a = sparse(3, 3, &[((0, 0), 7)]);
    let b = sparse(3, 4, &[((0, 0), 7)]);
    assert_eq!(a.try_binary_op(b, |(x, y)| *x + *y), Err(ShapeMismatch));
}

#[test]
fn try_binary_op_combines_equal_shapes() {
    let a = DenseMatrix::new(1, 3, vec![1, 2, 3]);
    let b = DenseMatrix::new(1, 3, vec![10, 20, 30]);
    let r = a.try_binary_op(b, |(x, y)| *y - *x);
    assert_eq!(r, Ok(DenseMatrix::new(1, 3, vec![9, 18, 27])));
}

#[test]
fn sizes_are_rows_then_columns() {
    assert_eq!(DenseMatrix::from_elem(4, 7, 0).size(), (4, 7));
    assert_eq!(sparse(5, 2, &[]).size(), (5, 2));
}

#[test]
fn operations_keep_the_shape() {
    let a = DenseMatrix::from_elem(4, 7, 3);
    let b = DenseMatrix::from_elem(4, 7, 5);
    assert_eq!((a + b).size(), (4, 7));
    assert_eq!((-DenseMatrix::from_elem(2, 9, 3)).size(), (2, 9));
    let s = sparse(6, 5, &[((1, 1), 4)]);
    assert_eq!((s * 3).size(), (6, 5));
    let t = sparse(6, 5, &[((1, 1), 4)]);
    assert_eq!((t + 1).size(), (6, 5));
}

#[test]
fn from_elem_repeats_the_element() {
    let a = DenseMatrix::from_elem(2, 3, 9);
    assert_eq!(a, DenseMatrix::new(2, 3, vec![9, 9, 9, 9, 9, 9]));
}

#[test]
fn enumerator_runs_row_by_row() {
    let mut it = IndicesIter::new(2, 3);
    let mut seen = Vec::new();
    let mut next = it.next();
    while let Some(p) = next {
        seen.push(p);
        next = it.next();
    }
    assert_eq!(seen, vec![(0, 0), (0, 1), (0, 2), (1, 0), (1, 1), (1, 2)]);
}

#[test]
fn enumerator_stays_exhausted() {
    let mut it = IndicesIter::new(1, 2);
    assert_eq!(it.next(), Some((0, 0)));
    assert_eq!(it.next(), Some((0, 1)));
    assert_eq!(it.next(), None);
    assert_eq!(it.next(), None);
    assert_eq!(it.next(), None);
}

#[test]
fn enumerator_of_an_empty_shape_yields_nothing() {
    assert_eq!(IndicesIter::new(0, 3).next(), None);
    assert_eq!(IndicesIter::new(3, 0).next(), None);
    assert_eq!(IndicesIter::new(0, 0).next(), None);
}

#[test]
fn enumerator_yields_rows_times_columns_pairs() {
    let mut it = IndicesIter::new(7, 5);
    let mut count = 0;
    while it.next().is_some() {
        count += 1;
    }
    assert_eq!(count, 35);
}

#[test]
fn a_fresh_enumerator_starts_over() {
    let m = DenseMatrix::from_elem(2, 2, 0);
    let mut first = m.indices_iter();
    assert_eq!(first.next(), Some((0, 0)));
    assert_eq!(first.next(), Some((0, 1)));
    let mut second = m.indices_iter();
    assert_eq!(second.next(), Some((0, 0)));
}

#[test]
fn dense_addition_commutes() {
    let a = DenseMatrix::new(2, 2, vec![1, -2, 3, 4]);
    let b = DenseMatrix::new(2, 2, vec![10, 20, -30, 40]);
    let a2 = DenseMatrix::new(2, 2, vec![1, -2, 3, 4]);
    let b2 = DenseMatrix::new(2, 2, vec![10, 20, -30, 40]);
    assert_eq!(a + b, b2 + a2);
}

#[test]
fn dense_addition_is_associative() {
    let a = || DenseMatrix::new(2, 2, vec![1, -2, 3, 4]);
    let b = || DenseMatrix::new(2, 2, vec![10, 20, -30, 40]);
    let c = || DenseMatrix::new(2, 2, vec![5, 5, 5, -5]);
    assert_eq!((a() + b()) + c(), a() + (b() + c()));
    assert_eq!((a() + b()) + c(), DenseMatrix::new(2, 2, vec![16, 23, -22, 39]));
}

#[test]
fn adding_the_zero_scalar_changes_nothing() {
    let a = DenseMatrix::new(2, 2, vec![1, 0, 3, -4]);
    assert_eq!(a + 0, DenseMatrix::new(2, 2, vec![1, 0, 3, -4]));
    let s = sparse(3, 3, &[((0, 0), 7), ((2, 1), -5)]);
    assert_eq!(s + 0, sparse(3, 3, &[((0, 0), 7), ((2, 1), -5)]));
}

#[test]
fn a_matrix_minus_itself_is_zero() {
    let a = DenseMatrix::new(2, 2, vec![1, 0, 3, -4]);
    let b = DenseMatrix::new(2, 2, vec![1, 0, 3, -4]);
    assert_eq!(a - b, DenseMatrix::from_elem(2, 2, 0));
    let s = sparse(3, 3, &[((0, 0), 7), ((2, 1), -5)]);
    let t = sparse(3, 3, &[((0, 0), 7), ((2, 1), -5)]);
    assert_eq!(s - t, sparse(3, 3, &[]));
}

#[test]
fn dense_scalar_operations_apply_to_every_element() {
    let a = || DenseMatrix::new(1, 3, vec![8, -4, 0]);
    assert_eq!(a() + 2, DenseMatrix::new(1, 3, vec![10, -2, 2]));
    assert_eq!(a() - 2, DenseMatrix::new(1, 3, vec![6, -6, -2]));
    assert_eq!(a() * 3, DenseMatrix::new(1, 3, vec![24, -12, 0]));
    assert_eq!(a() / 4, DenseMatrix::new(1, 3, vec![2, -1, 0]));
    assert_eq!(-a(), DenseMatrix::new(1, 3, vec![-8, 4, 0]));
}

#[test]
fn dense_unary_op_applies_the_function() {
    let a = DenseMatrix::new(2, 2, vec![1, 2, 3, 4]);
    assert_eq!(a.element_wise_unary_op(|x| *x * *x), DenseMatrix::new(2, 2, vec![1, 4, 9, 16]));
}

#[test]
fn dense_binary_op_pairs_by_offset() {
    let a = DenseMatrix::new(2, 2, vec![1, 2, 3, 4]);
    let b = DenseMatrix::new(2, 2, vec![10, 20, 30, 40]);
    let r = a.element_wise_binary_op(b, |(x, y)| *x * 100 + *y);
    assert_eq!(r, DenseMatrix::new(2, 2, vec![110, 220, 330, 440]));
}

#[test]
fn map_hands_row_and_column_to_the_function() {
    let a = DenseMatrix::new(2, 3, vec![0usize; 6]);
    let r = a.map(|_, i, j| 10 * i + j);
    assert_eq!(r, DenseMatrix::new(2, 3, vec![0, 1, 2, 10, 11, 12]));
}

#[test]
fn sparse_construction_drops_zero_entries() {
    let a = sparse(3, 3, &[((0, 0), 0), ((1, 1), 4), ((2, 2), 0)]);
    assert_eq!(a, sparse(3, 3, &[((1, 1), 4)]));
}

#[test]
fn sparse_construction_takes_the_last_entry_of_a_position() {
    let a = sparse(3, 3, &[((1, 1), 4), ((1, 1), 9)]);
    assert_eq!(a, sparse(3, 3, &[((1, 1), 9)]));
    let b = sparse(3, 3, &[((1, 1), 4), ((1, 1), 0)]);
    assert_eq!(b, sparse(3, 3, &[]));
}

#[test]
fn sparse_results_hold_no_zero() {
    let a = sparse(2, 2, &[((0, 0), 5), ((1, 1), 3)]);
    let b = sparse(2, 2, &[((0, 0), -5), ((0, 1), 2)]);
    assert_eq!(a + b, sparse(2, 2, &[((0, 1), 2), ((1, 1), 3)]));
    let c = sparse(2, 2, &[((0, 0), 5), ((1, 1), 3)]);
    assert_eq!(c * 0, sparse(2, 2, &[]));
    let d = sparse(2, 2, &[((0, 0), 5), ((1, 1), 3)]);
    assert_eq!(d - 5, sparse(2, 2, &[((0, 1), -5), ((1, 0), -5), ((1, 1), -2)]));
}

#[test]
fn sparse_binary_op_combines_lone_entries_with_zero() {
    let a = sparse(2, 2, &[((0, 0), 5)]);
    let b = sparse(2, 2, &[((1, 1), 3)]);
    let r = a.element_wise_binary_op(b, |(x, y)| *x * 10 + *y);
    assert_eq!(r, sparse(2, 2, &[((0, 0), 50), ((1, 1), 3)]));
}

#[test]
fn sparse_binary_op_leaves_untouched_positions_alone() {
    let a = sparse(2, 2, &[((0, 0), 5)]);
    let b = sparse(2, 2, &[((0, 0), 3)]);
    let r = a.element_wise_binary_op(b, |(x, y)| *x + *y + 1);
    assert_eq!(r, sparse(2, 2, &[((0, 0), 9)]));
}

#[test]
fn sparse_unary_op_fills_the_shape_when_zero_moves() {
    let a = sparse(2, 2, &[((0, 1), 5)]);
    let r = a.element_wise_unary_op(|x| *x + 1);
    assert_eq!(r, sparse(2, 2, &[((0, 0), 1), ((0, 1), 6), ((1, 0), 1), ((1, 1), 1)]));
}

#[test]
fn sparse_unary_op_touches_entries_only_when_zero_stays() {
    let a = sparse(2, 2, &[((0, 1), 5), ((1, 0), -2)]);
    let r = a.element_wise_unary_op(|x| *x * 2);
    assert_eq!(r, sparse(2, 2, &[((0, 1), 10), ((1, 0), -4)]));
}

#[test]
fn sparse_entries_outside_the_shape_follow_the_entries() {
    let a = sparse(2, 2, &[((5, 5), 4), ((0, 0), 1)]);
    assert_eq!(a * 2, sparse(2, 2, &[((5, 5), 8), ((0, 0), 2)]));
    let b = sparse(2, 2, &[((5, 5), 4), ((0, 0), 1)]);
    assert_eq!(b + 1, sparse(2, 2, &[((0, 0), 2), ((0, 1), 1), ((1, 0), 1), ((1, 1), 1)]));
    let c = sparse(2, 2, &[((5, 5), 4)]);
    let d = sparse(2, 2, &[((5, 5), 6), ((7, 0), 1)]);
    assert_eq!(c + d, sparse(2, 2, &[((5, 5), 10), ((7, 0), 1)]));
}

#[test]
fn sparse_positions_with_large_coordinates_stay_apart() {
    let a = sparse(1, 1, &[((usize::MAX, 0), 1), ((0, usize::MAX), 2), ((usize::MAX, usize::MAX), 3)]);
    let b = sparse(1, 1, &[((usize::MAX, 0), 10)]);
    assert_eq!(
        a + b,
        sparse(1, 1, &[((usize::MAX, 0), 11), ((0, usize::MAX), 2), ((usize::MAX, usize::MAX), 3)])
    );
}

#[test]
fn sparse_element_wise_multiply_keeps_common_positions() {
    let a = sparse(3, 3, &[((1, 2), 10), ((0, 0), 7)]);
    let b = sparse(3, 3, &[((0, 0), 2), ((2, 2), 20)]);
    assert_eq!(a.element_wise_multiply(b), sparse(3, 3, &[((0, 0), 14)]));
}

#[test]
fn sparse_division_by_a_scalar() {
    let a = sparse(3, 3, &[((1, 2), 10), ((0, 0), 7)]);
    assert_eq!(a / 2, sparse(3, 3, &[((1, 2), 5), ((0, 0), 3)]));
}

#[test]
fn equality_looks_at_shape_and_elements() {
    assert!(DenseMatrix::new(2, 3, vec![1; 6]) != DenseMatrix::new(3, 2, vec![1; 6]));
    assert!(DenseMatrix::new(2, 3, vec![1; 6]) != DenseMatrix::new(2, 3, vec![1, 1, 1, 1, 1, 2]));
    assert!(DenseMatrix::new(2, 3, vec![1; 6]) == DenseMatrix::new(2, 3, vec![1; 6]));
    assert!(sparse(2, 2, &[((0, 0), 1)]) != sparse(2, 3, &[((0, 0), 1)]));
    assert!(sparse(2, 2, &[((0, 0), 1)]) != sparse(2, 2, &[((0, 0), 2)]));
    assert!(sparse(2, 2, &[((0, 0), 1)]) != sparse(2, 2, &[((0, 1), 1)]));
    assert!(sparse(2, 2, &[((0, 0), 1)]) != sparse(2, 2, &[((0, 0), 1), ((0, 1), 1)]));
    assert!(sparse(2, 2, &[((0, 0), 1), ((0, 1), 1)]) != sparse(2, 2, &[((0, 0), 1)]));
    assert!(sparse(2, 2, &[((0, 0), 1), ((1, 1), 2)]) == sparse(2, 2, &[((1, 1), 2), ((0, 0), 1)]));
}

fn sparse_of_cells(m: usize, n: usize, cells: &[i32]) -> NaiveSparseMatrix<i32> {
    let mut entries = Vec::new();
    for i in 0..m {
        for j in 0..n {
            entries.push(((i, j), cells[i * n + j]));
        }
    }
    NaiveSparseMatrix::new(m, n, entries)
}

#[test]
fn dense_and_sparse_agree_after_the_same_operation() {
    let left = [1, 0, 0, 2, 0, -3];
    let right = [0, 0, 5, -2, 0, 3];
    let sum = [1, 0, 5, 0, 0, 0];
    let dense = DenseMatrix::new(2, 3, left.to_vec()) + DenseMatrix::new(2, 3, right.to_vec());
    let sparse = sparse_of_cells(2, 3, &left) + sparse_of_cells(2, 3, &right);
    assert_eq!(dense, DenseMatrix::new(2, 3, sum.to_vec()));
    assert_eq!(sparse, sparse_of_cells(2, 3, &sum));

    let shifted = [3, 2, 2, 4, 2, -1];
    assert_eq!(DenseMatrix::new(2, 3, left.to_vec()) + 2, DenseMatrix::new(2, 3, shifted.to_vec()));
    assert_eq!(sparse_of_cells(2, 3, &left) + 2, sparse_of_cells(2, 3, &shifted));

    let negated = [-1, 0, 0, -2, 0, 3];
    assert_eq!(-DenseMatrix::new(2, 3, left.to_vec()), DenseMatrix::new(2, 3, negated.to_vec()));
    assert_eq!(-sparse_of_cells(2, 3, &left), sparse_of_cells(2, 3, &negated));
}

/// An element whose addition keeps the left operand's first half and the
/// right operand's second half, so that the order of the operands shows.
#[derive(Clone, Copy, PartialEq, Debug)]
struct Halves {
    left: i32,
    right: i32,
}

impl std::ops::Add for Halves {
    type Output = Halves;

    fn add(self, rhs: Halves) -> Halves {
        Halves { left: self.left, right: rhs.right }
    }
}

impl Scalar for Halves {
    fn zero_spec() -> Halves {
        Halves { left: 0, right: 0 }
    }

    fn zero() -> Halves {
        Halves { left: 0, right: 0 }
    }

    fn is_zero(&self) -> bool {
        self.left == 0 && self.right == 0
    }
}

#[test]
fn scalar_addition_puts_the_scalar_on_the_right() {
    let a = DenseMatrix::new(1, 1, vec![Halves { left: 1, right: 2 }]);
    let k = Halves { left: 3, right: 4 };
    assert_eq!(a + k, DenseMatrix::new(1, 1, vec![Halves { left: 1, right: 4 }]));
    let b = DenseMatrix::new(1, 1, vec![Halves { left: 1, right: 2 }]);
    assert_eq!(b.scalar_add(k), DenseMatrix::new(1, 1, vec![Halves { left: 1, right: 4 }]));
}

#[test]
fn sparse_scalar_addition_puts_the_scalar_on_the_right() {
    let a = NaiveSparseMatrix::new(1, 2, vec![((0, 0), Halves { left: 1, right: 2 })]);
    let k = Halves { left: 3, right: 4 };
    let expected = NaiveSparseMatrix::new(
        1,
        2,
        vec![((0, 0), Halves { left: 1, right: 4 }), ((0, 1), Halves { left: 0, right: 4 })],
    );
    assert_eq!(a + k, expected);
}

#[test]
fn dropping_zeros_again_changes_nothing() {
    let a = sparse(3, 3, &[((0, 0), 0), ((1, 1), 4), ((2, 0), -1), ((2, 2), 0)]);
    let again = a.element_wise_unary_op(|x| *x);
    assert_eq!(again, sparse(3, 3, &[((1, 1), 4), ((2, 0), -1)]));
}
