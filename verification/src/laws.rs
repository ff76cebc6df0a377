//! What holds of the operations on every matrix.

use crate::dense_matrix::DenseMatrix;
use crate::matrix::Grid;
use crate::matrix::Matrix;
use crate::matrix::add_image;
use crate::matrix::binary_result;
use crate::matrix::in_shape;
use crate::matrix::scalar_add_image;
use crate::matrix::sub_image;
use crate::matrix::unary_cells;
use crate::matrix::unary_result;
use crate::naive_sparse_matrix::NaiveSparseMatrix;
use crate::naive_sparse_matrix::key_of;
use crate::naive_sparse_matrix::pos_of;
use crate::scalar::Scalar;
use std::ops::Add;
use std::ops::Sub;
use vstd::prelude::*;
use vstd::std_specs::cmp::PartialEqSpec;
use vstd::std_specs::ops::AddSpec;
use vstd::std_specs::ops::SubSpec;

verus! {

/// Whether a grid holds exactly the positions of its shape and leaves nothing
/// implicit, as a dense matrix does.
pub open spec fn full<T>(g: Grid<T>) -> bool {
    &&& g.implicit is None
    &&& forall|i: usize, j: usize| #[trigger] g.stored(i, j) == in_shape(g.size, i, j)
}

/// Whether two grids of one shape have the same element at every position of
/// the shape.
pub open spec fn agree<T>(a: Grid<T>, b: Grid<T>) -> bool {
    &&& a.size == b.size
    &&& forall|i: usize, j: usize|
        #![trigger a.at(i, j)]
        #![trigger b.at(i, j)]
        in_shape(a.size, i, j) ==> a.at(i, j) == b.at(i, j)
}

/// Whether `img` allows one image at most for every pair of operands.
pub open spec fn functional2<T>(img: spec_fn(T, T, T) -> bool) -> bool {
    forall|x: T, y: T, o1: T, o2: T| #[trigger] img(x, y, o1) && #[trigger] img(x, y, o2) ==> o1 == o2
}

/// Whether `img` allows one image at most for every operand.
pub open spec fn functional1<T>(img: spec_fn(T, T) -> bool) -> bool {
    forall|x: T, o1: T, o2: T| #[trigger] img(x, o1) && #[trigger] img(x, o2) ==> o1 == o2
}

/// The grid of a well-formed dense matrix is full.
pub proof fn lemma_dense_full<T>(a: DenseMatrix<T>)
    requires
        a.wf(),
    ensures
        full(a.grid()),
{
}

/// Two well-formed dense matrices with the same grid hold the same elements
/// in the same order.
pub proof fn lemma_dense_same_grid<T>(a: DenseMatrix<T>, b: DenseMatrix<T>)
    requires
        a.wf(),
        b.wf(),
        a.grid().size == b.grid().size,
        a.grid().cells == b.grid().cells,
    ensures
        a@ == b@,
{
    assert forall|k: int| 0 <= k < a@.len() implies a@[k] == b@[k] by {
        a.lemma_offset(k);
        b.lemma_offset(k);
    }
    assert(a@ =~= b@);
}

/// No element that a well-formed sparse matrix holds is zero.
pub proof fn lemma_sparse_holds_no_zero<T: Scalar>(a: NaiveSparseMatrix<T>, i: usize, j: usize)
    requires
        a.wf(),
        a@.contains_key((i, j)),
    ensures
        a@[(i, j)] != T::zero_spec(),
{
    assert(a.grid().cells[(i, j)] == a@[(i, j)]);
}

/// What `==` means on two well-formed sparse matrices, said over what they
/// hold by position: equal shapes, the same positions held, and equal elements
/// at each of them.
pub proof fn lemma_eq_by_position<T: Scalar + PartialEq>(
    a: NaiveSparseMatrix<T>,
    b: NaiveSparseMatrix<T>,
)
    requires
        a.wf(),
        b.wf(),
    ensures
        a.eq_spec(&b) <==> ({
            &&& a.size_spec() == b.size_spec()
            &&& forall|p: (usize, usize)|
                #![trigger a@.contains_key(p)]
                #![trigger b@.contains_key(p)]
                a@.contains_key(p) == b@.contains_key(p) && (a@.contains_key(p) ==> a@[p].eq_spec(
                    &b@[p],
                ))
        }),
{
    if a.eq_spec(&b) {
        assert forall|p: (usize, usize)|
            #![trigger a@.contains_key(p)]
            #![trigger b@.contains_key(p)]
            a@.contains_key(p) == b@.contains_key(p) && (a@.contains_key(p) ==> a@[p].eq_spec(
                &b@[p],
            )) by {
            a.lemma_keyed_cells(p.0, p.1);
            b.lemma_keyed_cells(p.0, p.1);
            assert(a.keyed_cells().contains_key(key_of(p.0, p.1)) == b.keyed_cells().contains_key(
                key_of(p.0, p.1),
            ));
        }
    }
    if a.size_spec() == b.size_spec() && (forall|p: (usize, usize)|
        #![trigger a@.contains_key(p)]
        #![trigger b@.contains_key(p)]
        a@.contains_key(p) == b@.contains_key(p) && (a@.contains_key(p) ==> a@[p].eq_spec(
            &b@[p],
        ))) {
        assert forall|k: u128|
            #![trigger a.keyed_cells().contains_key(k)]
            #![trigger b.keyed_cells().contains_key(k)]
            a.keyed_cells().contains_key(k) == b.keyed_cells().contains_key(k) && (
            a.keyed_cells().contains_key(k) ==> a.keyed_cells()[k].eq_spec(
                &b.keyed_cells()[k],
            )) by {
            if a.keyed_cells().contains_key(k) {
                a.lemma_keys_are_positions(k);
                assert(a@.contains_key(pos_of(k)));
                b.lemma_keyed_cells(pos_of(k).0, pos_of(k).1);
            }
            if b.keyed_cells().contains_key(k) {
                b.lemma_keys_are_positions(k);
                assert(b@.contains_key(pos_of(k)));
                a.lemma_keyed_cells(pos_of(k).0, pos_of(k).1);
            }
        }
    }
}

/// A binary operation keeps the shape of its operands.
pub proof fn lemma_binary_keeps_shape<T>(
    a: Grid<T>,
    b: Grid<T>,
    r: Grid<T>,
    img: spec_fn(T, T, T) -> bool,
)
    requires
        a.size == b.size,
        binary_result(a, b, r, img),
    ensures
        r.size == a.size,
        r.size == b.size,
{
}

/// A unary operation keeps the shape of its operand.
pub proof fn lemma_unary_keeps_shape<T>(a: Grid<T>, r: Grid<T>, img: spec_fn(T, T) -> bool)
    requires
        unary_result(a, r, img),
    ensures
        r.size == a.size,
{
}

/// Adding a scalar that is neutral for the addition of elements leaves a
/// matrix as it was, whether it is dense or sparse.
pub proof fn lemma_scalar_add_neutral<T: Add<T, Output = T>>(a: Grid<T>, r: Grid<T>, k: T)
    requires
        T::obeys_add_spec(),
        forall|x: T| #[trigger] x.add_spec(k) == x,
        a.normal(),
        unary_result(a, r, scalar_add_image(k)),
    ensures
        r.size == a.size,
        r.cells == a.cells,
{
    let img = scalar_add_image(k);
    match a.implicit {
        None => {
            assert forall|p: (usize, usize)|
                #![trigger r.cells.contains_key(p)]
                #![trigger a.cells.contains_key(p)]
                r.cells.contains_key(p) == a.cells.contains_key(p) && (a.cells.contains_key(p)
                    ==> r.cells[p] == a.cells[p]) by {
                assert(r.stored(p.0, p.1) == a.stored(p.0, p.1));
                if a.stored(p.0, p.1) {
                    assert(img(a.at(p.0, p.1), r.at(p.0, p.1)));
                }
            }
        },
        Some(z) => {
            let f0 = choose|f0: T| img(z, f0) && #[trigger] unary_cells(a, r, img, z, f0);
            assert(f0 == z);
            assert forall|p: (usize, usize)|
                #![trigger r.cells.contains_key(p)]
                #![trigger a.cells.contains_key(p)]
                r.cells.contains_key(p) == a.cells.contains_key(p) && (a.cells.contains_key(p)
                    ==> r.cells[p] == a.cells[p]) by {
                assert(r.keeps(p.0, p.1));
                if a.stored(p.0, p.1) {
                    assert(img(a.at(p.0, p.1), r.at(p.0, p.1)));
                    assert(a.implicit != Some(a.cells[(p.0, p.1)]));
                } else {
                    assert(r.at(p.0, p.1) == f0);
                }
            }
        },
    }
    assert(r.cells =~= a.cells);
}

/// A matrix minus itself holds `z` wherever it holds anything, if every
/// element minus itself is `z`; a sparse matrix whose zero is `z` then holds
/// nothing at all.
pub proof fn lemma_sub_self<T: Sub<T, Output = T>>(a: Grid<T>, r: Grid<T>, z: T)
    requires
        T::obeys_sub_spec(),
        forall|x: T| #[trigger] x.sub_spec(x) == z,
        binary_result(a, a, r, sub_image::<T>()),
    ensures
        r.size == a.size,
        forall|i: usize, j: usize| a.stored(i, j) ==> #[trigger] r.at(i, j) == z,
        a.implicit is None ==> forall|i: usize, j: usize|
            #[trigger] r.stored(i, j) == a.stored(i, j),
        a.implicit == Some(z) ==> r.cells == Map::<(usize, usize), T>::empty(),
{
    let img = sub_image::<T>();
    assert forall|i: usize, j: usize| a.stored(i, j) implies #[trigger] r.at(i, j) == z by {
        assert(img(a.at(i, j), a.at(i, j), r.at(i, j)));
    }
    if a.implicit is None {
        assert forall|i: usize, j: usize| #[trigger] r.stored(i, j) == a.stored(i, j) by {
            if a.stored(i, j) {
                assert(r.at(i, j) == z);
                assert(r.keeps(i, j));
            }
        }
    }
    if a.implicit == Some(z) {
        assert forall|p: (usize, usize)| !r.cells.contains_key(p) by {
            if a.stored(p.0, p.1) {
                assert(r.at(p.0, p.1) == z);
                assert(r.keeps(p.0, p.1));
            } else {
                assert(!r.stored(p.0, p.1));
            }
        }
        assert(r.cells =~= Map::<(usize, usize), T>::empty());
    }
}

/// Addition of matrices commutes where the addition of their elements does.
pub proof fn lemma_add_commutative<T: Add<T, Output = T>>(
    a: Grid<T>,
    b: Grid<T>,
    r1: Grid<T>,
    r2: Grid<T>,
)
    requires
        T::obeys_add_spec(),
        a.size == b.size,
        a.implicit == b.implicit,
        forall|i: usize, j: usize|
            a.stored(i, j) || b.stored(i, j) ==> #[trigger] a.at(i, j).add_spec(b.at(i, j))
                == b.at(i, j).add_spec(a.at(i, j)),
        binary_result(a, b, r1, add_image::<T>()),
        binary_result(b, a, r2, add_image::<T>()),
    ensures
        r1 == r2,
{
    let img = add_image::<T>();
    assert forall|p: (usize, usize)|
        #![trigger r1.cells.contains_key(p)]
        #![trigger r2.cells.contains_key(p)]
        r1.cells.contains_key(p) == r2.cells.contains_key(p) && (r1.cells.contains_key(p)
            ==> r1.cells[p] == r2.cells[p]) by {
        if a.stored(p.0, p.1) || b.stored(p.0, p.1) {
            assert(img(a.at(p.0, p.1), b.at(p.0, p.1), r1.at(p.0, p.1)));
            assert(img(b.at(p.0, p.1), a.at(p.0, p.1), r2.at(p.0, p.1)));
            assert(a.at(p.0, p.1).add_spec(b.at(p.0, p.1)) == b.at(p.0, p.1).add_spec(
                a.at(p.0, p.1),
            ));
            assert(r1.keeps(p.0, p.1));
            assert(r2.keeps(p.0, p.1));
        } else {
            assert(!r1.stored(p.0, p.1));
            assert(!r2.stored(p.0, p.1));
        }
    }
    assert(r1.cells =~= r2.cells);
}

/// Addition of dense matrices is associative where the addition of their
/// elements is: `(a + b) + c` and `a + (b + c)` hold the same elements.
pub proof fn lemma_add_associative<T: Add<T, Output = T>>(
    a: Grid<T>,
    b: Grid<T>,
    c: Grid<T>,
    ab: Grid<T>,
    bc: Grid<T>,
    r1: Grid<T>,
    r2: Grid<T>,
)
    requires
        T::obeys_add_spec(),
        full(a),
        full(b),
        full(c),
        a.size == b.size,
        b.size == c.size,
        forall|i: usize, j: usize|
            in_shape(a.size, i, j) ==> (#[trigger] a.at(i, j).add_spec(b.at(i, j))).add_spec(
                c.at(i, j),
            ) == a.at(i, j).add_spec(b.at(i, j).add_spec(c.at(i, j))),
        binary_result(a, b, ab, add_image::<T>()),
        binary_result(ab, c, r1, add_image::<T>()),
        binary_result(b, c, bc, add_image::<T>()),
        binary_result(a, bc, r2, add_image::<T>()),
    ensures
        r1 == r2,
{
    let img = add_image::<T>();
    assert forall|p: (usize, usize)|
        #![trigger r1.cells.contains_key(p)]
        #![trigger r2.cells.contains_key(p)]
        r1.cells.contains_key(p) == r2.cells.contains_key(p) && (r1.cells.contains_key(p)
            ==> r1.cells[p] == r2.cells[p]) by {
        let i = p.0;
        let j = p.1;
        assert(a.stored(i, j) == in_shape(a.size, i, j));
        assert(b.stored(i, j) == in_shape(b.size, i, j));
        assert(c.stored(i, j) == in_shape(c.size, i, j));
        if in_shape(a.size, i, j) {
            assert(img(a.at(i, j), b.at(i, j), ab.at(i, j)));
            assert(img(b.at(i, j), c.at(i, j), bc.at(i, j)));
            assert(img(ab.at(i, j), c.at(i, j), r1.at(i, j)));
            assert(img(a.at(i, j), bc.at(i, j), r2.at(i, j)));
            assert(a.at(i, j).add_spec(b.at(i, j)).add_spec(c.at(i, j)) == a.at(i, j).add_spec(
                b.at(i, j).add_spec(c.at(i, j)),
            ));
            assert(r1.keeps(i, j));
            assert(r2.keeps(i, j));
        } else {
            assert(!ab.stored(i, j));
            assert(!bc.stored(i, j));
            assert(!r1.stored(i, j));
            assert(!r2.stored(i, j));
        }
    }
    assert(r1.cells =~= r2.cells);
}

/// A dense and a sparse matrix that agree position by position still agree
/// after the same binary operation, if the combining function has one image
/// per pair of operands and takes two zeros to zero.
pub proof fn lemma_binary_agree<T>(
    d1: Grid<T>,
    d2: Grid<T>,
    rd: Grid<T>,
    s1: Grid<T>,
    s2: Grid<T>,
    rs: Grid<T>,
    z: T,
    img: spec_fn(T, T, T) -> bool,
)
    requires
        full(d1),
        full(d2),
        d1.size == d2.size,
        s1.implicit == Some(z),
        s2.implicit == Some(z),
        agree(d1, s1),
        agree(d2, s2),
        functional2(img),
        img(z, z, z),
        binary_result(d1, d2, rd, img),
        binary_result(s1, s2, rs, img),
    ensures
        agree(rd, rs),
{
    assert forall|i: usize, j: usize|
        #![trigger rd.at(i, j)]
        #![trigger rs.at(i, j)]
        in_shape(rd.size, i, j) implies rd.at(i, j) == rs.at(i, j) by {
        assert(d1.stored(i, j) == in_shape(d1.size, i, j));
        assert(d1.at(i, j) == s1.at(i, j));
        assert(d2.at(i, j) == s2.at(i, j));
        assert(img(d1.at(i, j), d2.at(i, j), rd.at(i, j)));
        if s1.stored(i, j) || s2.stored(i, j) {
            assert(img(s1.at(i, j), s2.at(i, j), rs.at(i, j)));
        } else {
            assert(!rs.stored(i, j));
            assert(rs.at(i, j) == z);
        }
    }
}

/// A dense and a sparse matrix that agree position by position still agree
/// after the same unary operation, if the transforming function has one image
/// per operand.
pub proof fn lemma_unary_agree<T>(
    d: Grid<T>,
    rd: Grid<T>,
    s: Grid<T>,
    rs: Grid<T>,
    z: T,
    img: spec_fn(T, T) -> bool,
)
    requires
        full(d),
        s.implicit == Some(z),
        agree(d, s),
        functional1(img),
        unary_result(d, rd, img),
        unary_result(s, rs, img),
    ensures
        agree(rd, rs),
{
    let f0 = choose|f0: T| img(z, f0) && #[trigger] unary_cells(s, rs, img, z, f0);
    assert forall|i: usize, j: usize|
        #![trigger rd.at(i, j)]
        #![trigger rs.at(i, j)]
        in_shape(rd.size, i, j) implies rd.at(i, j) == rs.at(i, j) by {
        assert(d.stored(i, j) == in_shape(d.size, i, j));
        assert(d.at(i, j) == s.at(i, j));
        assert(rd.stored(i, j) == d.stored(i, j));
        assert(img(d.at(i, j), rd.at(i, j)));
        assert(rs.keeps(i, j));
        if s.stored(i, j) {
            assert(img(s.at(i, j), rs.at(i, j)));
        } else {
            assert(rs.at(i, j) == f0);
            assert(s.at(i, j) == z);
        }
    }
}

} // verus!
