//! The capability set shared by the representations, the model that its
//! contracts speak of, and the enumerator of positions.

use std::ops::Add;
use std::ops::Div;
use std::ops::Mul;
use std::ops::Neg;
use std::ops::Sub;
use vstd::arithmetic::div_mod::lemma_fundamental_div_mod_converse;
use vstd::prelude::*;
use vstd::std_specs::ops::AddSpec;
use vstd::std_specs::ops::DivSpec;
use vstd::std_specs::ops::MulSpec;
use vstd::std_specs::ops::NegSpec;
use vstd::std_specs::ops::SubSpec;

verus! {

/// The refusal of operands whose shapes differ, or of a list of elements that
/// does not fill the shape it was given for.
#[derive(PartialEq, Eq, Structural, Debug, Clone, Copy)]
pub struct ShapeMismatch;

/// Whether position `(i, j)` lies inside a matrix of the given shape.
pub open spec fn in_shape(size: (usize, usize), i: usize, j: usize) -> bool {
    i < size.0 && j < size.1
}

/// The content of a matrix, whatever its representation.
///
/// `cells` maps the positions that the representation holds to the elements
/// held there. A dense matrix holds exactly the positions of its shape and has
/// no implicit element; a sparse one holds what it was given and lets its zero
/// stand at every other position.
pub struct Grid<T> {
    /// Rows, then columns.
    pub size: (usize, usize),
    /// The elements held, by position.
    pub cells: Map<(usize, usize), T>,
    /// The element at every position that is not held, if there is one.
    pub implicit: Option<T>,
}

impl<T> Grid<T> {
    /// Whether an element is held for position `(i, j)`.
    pub open spec fn stored(self, i: usize, j: usize) -> bool {
        self.cells.contains_key((i, j))
    }

    /// The element at position `(i, j)`: the one held there, else the implicit
    /// one.
    pub open spec fn at(self, i: usize, j: usize) -> T {
        if self.cells.contains_key((i, j)) {
            self.cells[(i, j)]
        } else {
            self.implicit->0
        }
    }

    /// No element that is held equals the implicit one.
    pub open spec fn normal(self) -> bool {
        forall|i: usize, j: usize|
            #![trigger self.cells[(i, j)]]
            self.cells.contains_key((i, j)) ==> self.implicit != Some(self.cells[(i, j)])
    }

    /// Whether position `(i, j)` is accounted for as it must be: an element
    /// is held there unless it is the implicit element, which is never held.
    pub open spec fn keeps(self, i: usize, j: usize) -> bool {
        self.stored(i, j) <==> self.implicit != Some(self.at(i, j))
    }
}

/// The combining function may be called on every pair of elements that a
/// binary operation on `a` and `b` hands to it: the pairs at the positions
/// that at least one of the two operands holds.
pub open spec fn binary_domain<T>(a: Grid<T>, b: Grid<T>, pre: spec_fn(T, T) -> bool) -> bool {
    forall|i: usize, j: usize|
        #![trigger a.at(i, j), b.at(i, j)]
        a.stored(i, j) || b.stored(i, j) ==> pre(a.at(i, j), b.at(i, j))
}

/// `r` is a result of combining `a` and `b` element by element, where
/// `img(x, y, o)` says that the combining function may return `o` on `(x, y)`.
///
/// At every position that one of the operands holds, the element of `r` is an
/// image of the two operands' elements there, held unless it is the implicit
/// element; `r` holds no other position. This fixes `r` up to the choice of
/// images.
pub open spec fn binary_result<T>(
    a: Grid<T>,
    b: Grid<T>,
    r: Grid<T>,
    img: spec_fn(T, T, T) -> bool,
) -> bool {
    &&& r.size == a.size
    &&& r.implicit == a.implicit
    &&& forall|i: usize, j: usize|
        #![trigger r.at(i, j)]
        #![trigger r.stored(i, j)]
        if a.stored(i, j) || b.stored(i, j) {
            img(a.at(i, j), b.at(i, j), r.at(i, j)) && r.keeps(i, j)
        } else {
            !r.stored(i, j)
        }
}

/// The transforming function may be called on every element that a unary
/// operation on `a` hands to it: the elements that `a` holds and the implicit
/// element, if there is one.
pub open spec fn unary_domain<T>(a: Grid<T>, pre: spec_fn(T) -> bool) -> bool {
    &&& forall|i: usize, j: usize| #![trigger a.at(i, j)] a.stored(i, j) ==> pre(a.at(i, j))
    &&& a.implicit matches Some(z) ==> pre(z)
}

/// The positions of `r` after a unary operation on a matrix with the implicit
/// element `z`, when `f0` is the image of `z` that was computed.
///
/// If `z` goes to itself the operation reaches every position: held elements
/// go to an image of theirs, and the others stay at `z`. Otherwise it reaches
/// the positions of the shape only: held elements go to an image of theirs,
/// the others to `f0`, and `r` holds nothing outside the shape. A position
/// that was reached is held in `r` unless its new element is `z`.
pub open spec fn unary_cells<T>(
    a: Grid<T>,
    r: Grid<T>,
    img: spec_fn(T, T) -> bool,
    z: T,
    f0: T,
) -> bool {
    forall|i: usize, j: usize|
        #![trigger r.at(i, j)]
        #![trigger r.stored(i, j)]
        if in_shape(a.size, i, j) || f0 == z {
            &&& r.keeps(i, j)
            &&& if a.stored(i, j) {
                img(a.at(i, j), r.at(i, j))
            } else {
                r.at(i, j) == f0
            }
        } else {
            !r.stored(i, j)
        }
}

/// `r` is a result of transforming `a` element by element, where `img(x, o)`
/// says that the transforming function may return `o` on `x`.
///
/// Without an implicit element, `r` holds the positions that `a` holds, each
/// with an image of the element of `a` there. With one, see [`unary_cells`].
/// This fixes `r` up to the choice of images.
pub open spec fn unary_result<T>(a: Grid<T>, r: Grid<T>, img: spec_fn(T, T) -> bool) -> bool {
    &&& r.size == a.size
    &&& r.implicit == a.implicit
    &&& match a.implicit {
        None => forall|i: usize, j: usize|
            #![trigger r.at(i, j)]
            #![trigger r.stored(i, j)]
            r.stored(i, j) == a.stored(i, j) && (a.stored(i, j) ==> img(a.at(i, j), r.at(i, j))),
        Some(z) => exists|f0: T| img(z, f0) && #[trigger] unary_cells(a, r, img, z, f0),
    }
}

/// Images of element addition: what `T`'s `+` may return on `(a, b)`. For a
/// type that keeps to its `add_spec` that is `a.add_spec(b)` and nothing else;
/// the same holds of the images below and their operators.
pub open spec fn add_image<T: Add<T, Output = T>>() -> spec_fn(T, T, T) -> bool {
    |a: T, b: T, o: T| call_ensures(T::add, (a, b), o)
}

/// Images of element subtraction.
pub open spec fn sub_image<T: Sub<T, Output = T>>() -> spec_fn(T, T, T) -> bool {
    |a: T, b: T, o: T| call_ensures(T::sub, (a, b), o)
}

/// Images of element multiplication.
pub open spec fn mul_image<T: Mul<T, Output = T>>() -> spec_fn(T, T, T) -> bool {
    |a: T, b: T, o: T| call_ensures(T::mul, (a, b), o)
}

/// Images of `a -> a + k`.
pub open spec fn scalar_add_image<T: Add<T, Output = T>>(k: T) -> spec_fn(T, T) -> bool {
    |a: T, o: T| call_ensures(T::add, (a, k), o)
}

/// Images of `a -> a - k`.
pub open spec fn scalar_sub_image<T: Sub<T, Output = T>>(k: T) -> spec_fn(T, T) -> bool {
    |a: T, o: T| call_ensures(T::sub, (a, k), o)
}

/// Images of `a -> k * a`.
pub open spec fn scalar_mul_image<T: Mul<T, Output = T>>(k: T) -> spec_fn(T, T) -> bool {
    |a: T, o: T| call_ensures(T::mul, (k, a), o)
}

/// Images of `a -> a / k`.
pub open spec fn scalar_div_image<T: Div<T, Output = T>>(k: T) -> spec_fn(T, T) -> bool {
    |a: T, o: T| call_ensures(T::div, (a, k), o)
}

/// Images of `a -> -a`.
pub open spec fn neg_image<T: Neg<Output = T>>() -> spec_fn(T, T) -> bool {
    |a: T, o: T| call_ensures(T::neg, (a,), o)
}

/// A binary result stays one when the images are described more loosely.
pub proof fn lemma_binary_result_weaken<T>(
    a: Grid<T>,
    b: Grid<T>,
    r: Grid<T>,
    img: spec_fn(T, T, T) -> bool,
    wider: spec_fn(T, T, T) -> bool,
)
    requires
        binary_result(a, b, r, img),
        forall|x: T, y: T, o: T| #[trigger] img(x, y, o) ==> wider(x, y, o),
    ensures
        binary_result(a, b, r, wider),
{
    assert forall|i: usize, j: usize|
        #![trigger r.at(i, j)]
        #![trigger r.stored(i, j)]
        if a.stored(i, j) || b.stored(i, j) {
            wider(a.at(i, j), b.at(i, j), r.at(i, j)) && r.keeps(i, j)
        } else {
            !r.stored(i, j)
        } by {
        if a.stored(i, j) || b.stored(i, j) {
            assert(img(a.at(i, j), b.at(i, j), r.at(i, j)));
        } else {
            assert(!r.stored(i, j));
        }
    }
}

/// A unary result stays one when the images are described more loosely.
pub proof fn lemma_unary_result_weaken<T>(
    a: Grid<T>,
    r: Grid<T>,
    img: spec_fn(T, T) -> bool,
    wider: spec_fn(T, T) -> bool,
)
    requires
        unary_result(a, r, img),
        forall|x: T, o: T| #[trigger] img(x, o) ==> wider(x, o),
    ensures
        unary_result(a, r, wider),
{
    match a.implicit {
        None => {
            assert forall|i: usize, j: usize|
                #![trigger r.at(i, j)]
                #![trigger r.stored(i, j)]
                r.stored(i, j) == a.stored(i, j) && (a.stored(i, j) ==> wider(
                    a.at(i, j),
                    r.at(i, j),
                )) by {
                assert(r.stored(i, j) == a.stored(i, j));
                if a.stored(i, j) {
                    assert(img(a.at(i, j), r.at(i, j)));
                }
            }
        },
        Some(z) => {
            let f0 = choose|f0: T| img(z, f0) && #[trigger] unary_cells(a, r, img, z, f0);
            assert(wider(z, f0));
            assert forall|i: usize, j: usize|
                #![trigger r.at(i, j)]
                #![trigger r.stored(i, j)]
                if in_shape(a.size, i, j) || f0 == z {
                    &&& r.keeps(i, j)
                    &&& if a.stored(i, j) {
                        wider(a.at(i, j), r.at(i, j))
                    } else {
                        r.at(i, j) == f0
                    }
                } else {
                    !r.stored(i, j)
                } by {
                if in_shape(a.size, i, j) || f0 == z {
                    assert(r.keeps(i, j));
                    if a.stored(i, j) {
                        assert(img(a.at(i, j), r.at(i, j)));
                    }
                } else {
                    assert(!r.stored(i, j));
                }
            }
            assert(unary_cells(a, r, wider, z, f0));
        },
    }
}

/// The capability set of a matrix representation.
///
/// A representation supplies its shape and the two element-wise primitives;
/// every arithmetic operator is one call of a primitive with a fixed function.
pub trait Matrix<T>: Sized {
    /// The representation invariant.
    spec fn wf(&self) -> bool;

    /// The content: shape, elements held, implicit element.
    spec fn grid(&self) -> Grid<T>;

    /// Combines `self` and `rhs`, which must have the same shape, element by
    /// element with `f`.
    fn element_wise_binary_op<F: Fn((&T, &T)) -> T>(self, rhs: Self, f: F) -> (r: Self)
        requires
            self.wf(),
            rhs.wf(),
            self.grid().size == rhs.grid().size,
            binary_domain(self.grid(), rhs.grid(), |a: T, b: T| call_requires(f, ((&a, &b),))),
        ensures
            r.wf(),
            binary_result(self.grid(), rhs.grid(), r.grid(), |a: T, b: T, o: T| call_ensures(f, ((&a, &b),), o)),
    ;

    /// Transforms `self` element by element with `f`.
    fn element_wise_unary_op<F: Fn(&T) -> T>(self, f: F) -> (r: Self)
        requires
            self.wf(),
            unary_domain(self.grid(), |a: T| call_requires(f, (&a,))),
        ensures
            r.wf(),
            unary_result(self.grid(), r.grid(), |a: T, o: T| call_ensures(f, (&a,), o)),
    ;

    /// The shape: rows, then columns.
    fn size(&self) -> (s: (usize, usize))
        ensures
            s == self.grid().size,
    ;

    /// Combines `self` and `rhs` element by element with `f` if their shapes
    /// are equal, and refuses them if not.
    fn try_binary_op<F: Fn((&T, &T)) -> T>(self, rhs: Self, f: F) -> (r: Result<
        Self,
        ShapeMismatch,
    >)
        requires
            self.wf(),
            rhs.wf(),
            self.grid().size == rhs.grid().size ==> binary_domain(
                self.grid(),
                rhs.grid(),
                |a: T, b: T| call_requires(f, ((&a, &b),)),
            ),
        ensures
            r.is_ok() <==> self.grid().size == rhs.grid().size,
            r matches Ok(m) ==> m.wf() && binary_result(
                self.grid(),
                rhs.grid(),
                m.grid(),
                |a: T, b: T, o: T| call_ensures(f, ((&a, &b),), o),
            ),
    {
        let left = self.size();
        let right = rhs.size();
        if left.0 == right.0 && left.1 == right.1 {
            Ok(self.element_wise_binary_op(rhs, f))
        } else {
            Err(ShapeMismatch)
        }
    }

    /// Matrix addition. The operands must have the same shape.
    fn __add(self, rhs: Self) -> (r: Self) where T: Add<T, Output = T> + Copy
        requires
            self.wf(),
            rhs.wf(),
            self.grid().size == rhs.grid().size,
            binary_domain(self.grid(), rhs.grid(), |a: T, b: T| a.add_req(b)),
        ensures
            r.wf(),
            binary_result(self.grid(), rhs.grid(), r.grid(), add_image::<T>()),
    {
        let f = |p: (&T, &T)| -> (o: T)
            requires
                (*p.0).add_req(*p.1),
            ensures
                call_ensures(T::add, (*p.0, *p.1), o),
            {
                let a: T = *p.0;
                let b: T = *p.1;
                a + b
            };
        let r = self.element_wise_binary_op(rhs, f);
        proof {
            lemma_binary_result_weaken(
                self.grid(),
                rhs.grid(),
                r.grid(),
                |a: T, b: T, o: T| call_ensures(f, ((&a, &b),), o),
                add_image::<T>(),
            );
        }
        r
    }

    /// Adds `rhs` to every element, on the element's right.
    fn scalar_add(self, rhs: T) -> (r: Self) where T: Add<T, Output = T> + Copy
        requires
            self.wf(),
            unary_domain(self.grid(), |a: T| a.add_req(rhs)),
        ensures
            r.wf(),
            unary_result(self.grid(), r.grid(), scalar_add_image(rhs)),
    {
        let f = |p: &T| -> (o: T)
            requires
                (*p).add_req(rhs),
            ensures
                call_ensures(T::add, (*p, rhs), o),
            {
                let a: T = *p;
                a + rhs
            };
        let r = self.element_wise_unary_op(f);
        proof {
            lemma_unary_result_weaken(
                self.grid(),
                r.grid(),
                |a: T, o: T| call_ensures(f, (&a,), o),
                scalar_add_image(rhs),
            );
        }
        r
    }

    /// Element-wise multiplication. The operands must have the same shape.
    fn element_wise_multiply(self, rhs: Self) -> (r: Self) where T: Mul<T, Output = T> + Copy
        requires
            self.wf(),
            rhs.wf(),
            self.grid().size == rhs.grid().size,
            binary_domain(self.grid(), rhs.grid(), |a: T, b: T| a.mul_req(b)),
        ensures
            r.wf(),
            binary_result(self.grid(), rhs.grid(), r.grid(), mul_image::<T>()),
    {
        let f = |p: (&T, &T)| -> (o: T)
            requires
                (*p.0).mul_req(*p.1),
            ensures
                call_ensures(T::mul, (*p.0, *p.1), o),
            {
                let a: T = *p.0;
                let b: T = *p.1;
                a * b
            };
        let r = self.element_wise_binary_op(rhs, f);
        proof {
            lemma_binary_result_weaken(
                self.grid(),
                rhs.grid(),
                r.grid(),
                |a: T, b: T, o: T| call_ensures(f, ((&a, &b),), o),
                mul_image::<T>(),
            );
        }
        r
    }

    /// Matrix subtraction. The operands must have the same shape.
    fn __sub(self, rhs: Self) -> (r: Self) where T: Sub<T, Output = T> + Copy
        requires
            self.wf(),
            rhs.wf(),
            self.grid().size == rhs.grid().size,
            binary_domain(self.grid(), rhs.grid(), |a: T, b: T| a.sub_req(b)),
        ensures
            r.wf(),
            binary_result(self.grid(), rhs.grid(), r.grid(), sub_image::<T>()),
    {
        let f = |p: (&T, &T)| -> (o: T)
            requires
                (*p.0).sub_req(*p.1),
            ensures
                call_ensures(T::sub, (*p.0, *p.1), o),
            {
                let a: T = *p.0;
                let b: T = *p.1;
                a - b
            };
        let r = self.element_wise_binary_op(rhs, f);
        proof {
            lemma_binary_result_weaken(
                self.grid(),
                rhs.grid(),
                r.grid(),
                |a: T, b: T, o: T| call_ensures(f, ((&a, &b),), o),
                sub_image::<T>(),
            );
        }
        r
    }

    /// Subtracts `rhs` from every element.
    fn scalar_sub(self, rhs: T) -> (r: Self) where T: Sub<T, Output = T> + Copy
        requires
            self.wf(),
            unary_domain(self.grid(), |a: T| a.sub_req(rhs)),
        ensures
            r.wf(),
            unary_result(self.grid(), r.grid(), scalar_sub_image(rhs)),
    {
        let f = |p: &T| -> (o: T)
            requires
                (*p).sub_req(rhs),
            ensures
                call_ensures(T::sub, (*p, rhs), o),
            {
                let a: T = *p;
                a - rhs
            };
        let r = self.element_wise_unary_op(f);
        proof {
            lemma_unary_result_weaken(
                self.grid(),
                r.grid(),
                |a: T, o: T| call_ensures(f, (&a,), o),
                scalar_sub_image(rhs),
            );
        }
        r
    }

    /// Multiplies every element by `rhs`, which stands on the left.
    fn scalar_mul(self, rhs: T) -> (r: Self) where T: Mul<T, Output = T> + Copy
        requires
            self.wf(),
            unary_domain(self.grid(), |a: T| rhs.mul_req(a)),
        ensures
            r.wf(),
            unary_result(self.grid(), r.grid(), scalar_mul_image(rhs)),
    {
        let f = |p: &T| -> (o: T)
            requires
                rhs.mul_req(*p),
            ensures
                call_ensures(T::mul, (rhs, *p), o),
            {
                let a: T = *p;
                rhs * a
            };
        let r = self.element_wise_unary_op(f);
        proof {
            lemma_unary_result_weaken(
                self.grid(),
                r.grid(),
                |a: T, o: T| call_ensures(f, (&a,), o),
                scalar_mul_image(rhs),
            );
        }
        r
    }

    /// Divides every element by `rhs`. What a zero divisor does is the element
    /// type's affair: the precondition hands its demand on.
    fn scalar_div(self, rhs: T) -> (r: Self) where T: Div<T, Output = T> + Copy
        requires
            self.wf(),
            unary_domain(self.grid(), |a: T| a.div_req(rhs)),
        ensures
            r.wf(),
            unary_result(self.grid(), r.grid(), scalar_div_image(rhs)),
    {
        let f = |p: &T| -> (o: T)
            requires
                (*p).div_req(rhs),
            ensures
                call_ensures(T::div, (*p, rhs), o),
            {
                let a: T = *p;
                a / rhs
            };
        let r = self.element_wise_unary_op(f);
        proof {
            lemma_unary_result_weaken(
                self.grid(),
                r.grid(),
                |a: T, o: T| call_ensures(f, (&a,), o),
                scalar_div_image(rhs),
            );
        }
        r
    }

    /// Negates every element.
    fn __neg(self) -> (r: Self) where T: Neg<Output = T> + Copy
        requires
            self.wf(),
            unary_domain(self.grid(), |a: T| a.neg_req()),
        ensures
            r.wf(),
            unary_result(self.grid(), r.grid(), neg_image::<T>()),
    {
        let f = |p: &T| -> (o: T)
            requires
                (*p).neg_req(),
            ensures
                call_ensures(T::neg, (*p,), o),
            {
                let a: T = *p;
                a.neg()
            };
        let r = self.element_wise_unary_op(f);
        proof {
            lemma_unary_result_weaken(
                self.grid(),
                r.grid(),
                |a: T, o: T| call_ensures(f, (&a,), o),
                neg_image::<T>(),
            );
        }
        r
    }

    /// A fresh enumerator of the positions of the shape.
    fn indices_iter(&self) -> (it: IndicesIter)
        ensures
            it.wf(),
            it.shape() == self.grid().size,
            it.index() == 0,
    {
        let (m, n) = self.size();
        IndicesIter::new(m, n)
    }
}

/// The positions of a `rows` by `cols` shape in row-major order.
pub open spec fn row_major(rows: usize, cols: usize) -> Seq<(usize, usize)> {
    Seq::new(
        (rows * cols) as nat,
        |k: int| ((k / (cols as int)) as usize, (k % (cols as int)) as usize),
    )
}

/// The row-major order has as many positions as the shape.
pub proof fn lemma_row_major_len(rows: usize, cols: usize)
    ensures
        row_major(rows, cols).len() == rows * cols,
{
    assert(0 <= rows * cols) by (nonlinear_arith)
        requires
            0 <= rows,
            0 <= cols,
    ;
}

/// Position `(i, j)` of the shape stands at index `i * cols + j` of the
/// row-major order, and nowhere else.
pub proof fn lemma_row_major_index(rows: usize, cols: usize, i: usize, j: usize)
    requires
        i < rows,
        j < cols,
    ensures
        0 <= i * cols + j < row_major(rows, cols).len(),
        row_major(rows, cols)[i * cols + j] == (i, j),
        forall|k: int|
            0 <= k < row_major(rows, cols).len() && #[trigger] row_major(rows, cols)[k] == (i, j)
                ==> k == i * cols + j,
{
    let k0 = i * cols + j;
    assert(0 <= i * cols) by (nonlinear_arith)
        requires
            0 <= i,
            0 <= cols,
    ;
    assert(i * cols + cols <= rows * cols) by (nonlinear_arith)
        requires
            i + 1 <= rows,
            0 <= cols,
    ;
    lemma_fundamental_div_mod_converse(k0, cols as int, i as int, j as int);
    assert forall|k: int|
        0 <= k < row_major(rows, cols).len() && #[trigger] row_major(rows, cols)[k] == (
            i,
            j,
        ) implies k == k0 by {
        lemma_row_major_pair(rows, cols, k);
    }
}

/// The pair at index `k` of the row-major order lies in the shape, and `k` is
/// its row times the number of columns, plus its column.
pub proof fn lemma_row_major_pair(rows: usize, cols: usize, k: int)
    requires
        0 <= k < rows * cols,
    ensures
        k < row_major(rows, cols).len(),
        in_shape((rows, cols), row_major(rows, cols)[k].0, row_major(rows, cols)[k].1),
        row_major(rows, cols)[k].0 * cols + row_major(rows, cols)[k].1 == k,
{
    let c = cols as int;
    assert(c > 0) by (nonlinear_arith)
        requires
            0 <= k < rows * c,
            0 <= rows,
    ;
    vstd::arithmetic::div_mod::lemma_fundamental_div_mod(k, c);
    vstd::arithmetic::div_mod::lemma_mod_bound(k, c);
    vstd::arithmetic::div_mod::lemma_div_pos_is_pos(k, c);
    let q = k / c;
    assert(q < rows) by (nonlinear_arith)
        requires
            k == c * q + k % c,
            0 <= k % c,
            k < rows * c,
            c > 0,
    ;
    assert(q * c == c * q) by (nonlinear_arith);
}

/// The row-major order runs through the rows in turn, and through each row
/// from its first column to its last.
pub proof fn lemma_row_major_order(rows: usize, cols: usize, k1: int, k2: int)
    requires
        0 <= k1 < rows * cols,
        0 <= k2 < rows * cols,
    ensures
        k1 < k2 <==> {
            let p = row_major(rows, cols)[k1];
            let q = row_major(rows, cols)[k2];
            p.0 < q.0 || (p.0 == q.0 && p.1 < q.1)
        },
{
    lemma_row_major_pair(rows, cols, k1);
    lemma_row_major_pair(rows, cols, k2);
    let p = row_major(rows, cols)[k1];
    let q = row_major(rows, cols)[k2];
    let c = cols as int;
    if p.0 < q.0 {
        assert(p.0 * c + c <= q.0 * c) by (nonlinear_arith)
            requires
                p.0 + 1 <= q.0,
                0 <= c,
        ;
    } else if q.0 < p.0 {
        assert(q.0 * c + c <= p.0 * c) by (nonlinear_arith)
            requires
                q.0 + 1 <= p.0,
                0 <= c,
        ;
    }
}

/// Enumerates the positions of a shape in row-major order.
///
/// It hands out each position of the shape once and then reports exhaustion
/// for good. A fresh one starts over.
pub struct IndicesIter {
    rows: usize,
    cols: usize,
    row: usize,
    col: usize,
}

impl IndicesIter {
    /// The shape whose positions are enumerated.
    pub closed spec fn shape(&self) -> (usize, usize) {
        (self.rows, self.cols)
    }

    /// How many positions have been handed out.
    pub closed spec fn index(&self) -> nat {
        (self.row * self.cols + self.col) as nat
    }

    /// The representation invariant.
    pub closed spec fn wf(&self) -> bool {
        &&& self.row <= self.rows
        &&& if self.row < self.rows {
            self.col < self.cols
        } else {
            self.col == 0
        }
    }

    /// How many positions the shape has.
    pub open spec fn total(&self) -> nat {
        (self.shape().0 * self.shape().1) as nat
    }

    /// No more has been handed out than the shape has.
    pub proof fn lemma_index_bound(&self)
        requires
            self.wf(),
        ensures
            self.index() <= self.total(),
    {
        let c = self.cols as int;
        if self.row < self.rows {
            assert(self.row * c + c <= self.rows * c) by (nonlinear_arith)
                requires
                    self.row + 1 <= self.rows,
                    0 <= c,
            ;
        }
    }

    /// An enumerator at the start of a `rows` by `cols` shape.
    pub fn new(rows: usize, cols: usize) -> (it: IndicesIter)
        ensures
            it.wf(),
            it.shape() == (rows, cols),
            it.index() == 0,
    {
        let row: usize = if cols == 0 {
            rows
        } else {
            0
        };
        let it = IndicesIter { rows, cols, row, col: 0 };
        assert(it.row * it.cols + it.col == 0) by (nonlinear_arith)
            requires
                it.col == 0,
                it.row == 0 || it.cols == 0,
        ;
        it
    }

    /// Hands out the next position, or `None` once all have been handed out.
    pub fn next(&mut self) -> (r: Option<(usize, usize)>)
        requires
            old(self).wf(),
        ensures
            final(self).wf(),
            final(self).shape() == old(self).shape(),
            old(self).index() < old(self).total() ==> r == Some(
                row_major(old(self).shape().0, old(self).shape().1)[old(self).index() as int],
            ) && final(self).index() == old(self).index() + 1,
            old(self).index() >= old(self).total() ==> r.is_none() && *final(self) == *old(
                self,
            ),
    {
        proof {
            self.lemma_index_bound();
        }
        if self.row < self.rows {
            let pair = (self.row, self.col);
            proof {
                let c = self.cols as int;
                let k = self.row * c + self.col;
                assert(0 <= self.row * c) by (nonlinear_arith)
                    requires
                        0 <= self.row,
                        0 <= c,
                ;
                assert(self.row * c + c <= self.rows * c) by (nonlinear_arith)
                    requires
                        self.row + 1 <= self.rows,
                        0 <= c,
                ;
                lemma_row_major_index(self.rows, self.cols, self.row, self.col);
                assert((self.row + 1) * c + 0 == k + (c - self.col)) by (nonlinear_arith)
                    requires
                        k == self.row * c + self.col,
                ;
            }
            if self.col + 1 < self.cols {
                self.col = self.col + 1;
            } else {
                self.col = 0;
                self.row = self.row + 1;
            }
            Some(pair)
        } else {
            None
        }
    }
}

} // verus!
