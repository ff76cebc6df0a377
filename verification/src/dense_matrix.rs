//! Dense storage: every element of the shape, row after row.

use crate::matrix::Grid;
use crate::matrix::Matrix;
use crate::matrix::ShapeMismatch;
use crate::matrix::add_image;
use crate::matrix::binary_domain;
use crate::matrix::binary_result;
use crate::matrix::in_shape;
use crate::matrix::lemma_row_major_index;
use crate::matrix::lemma_row_major_pair;
use crate::matrix::neg_image;
use crate::matrix::row_major;
use crate::matrix::scalar_add_image;
use crate::matrix::scalar_div_image;
use crate::matrix::scalar_mul_image;
use crate::matrix::scalar_sub_image;
use crate::matrix::sub_image;
use crate::matrix::unary_domain;
use crate::matrix::unary_result;
use std::ops::Add;
use std::ops::Div;
use std::ops::Mul;
use std::ops::Neg;
use std::ops::Sub;
use vstd::prelude::*;
use vstd::std_specs::cmp::PartialEqSpec;
use vstd::std_specs::cmp::PartialEqSpecImpl;
use vstd::std_specs::ops::AddSpec;
use vstd::std_specs::ops::AddSpecImpl;
use vstd::std_specs::ops::DivSpec;
use vstd::std_specs::ops::DivSpecImpl;
use vstd::std_specs::ops::MulSpec;
use vstd::std_specs::ops::MulSpecImpl;
use vstd::std_specs::ops::NegSpec;
use vstd::std_specs::ops::NegSpecImpl;
use vstd::std_specs::ops::SubSpec;
use vstd::std_specs::ops::SubSpecImpl;

verus! {

/// A matrix that holds every element of its shape, row after row.
#[derive(Eq, Debug)]
pub struct DenseMatrix<T> {
    m: usize,
    n: usize,
    data: Vec<T>,
}

impl<T> View for DenseMatrix<T> {
    type V = Seq<T>;

    /// The elements in row-major order.
    closed spec fn view(&self) -> Seq<T> {
        self.data@
    }
}

impl<T> DenseMatrix<T> {
    /// The shape: rows, then columns.
    pub closed spec fn size_spec(&self) -> (usize, usize) {
        (self.m, self.n)
    }

    /// The element of position `(i, j)` stands at offset `i * cols + j`.
    pub proof fn lemma_at(&self, i: usize, j: usize)
        requires
            self.wf(),
            in_shape(self.size_spec(), i, j),
        ensures
            0 <= i * self.size_spec().1 + j < self@.len(),
            self.grid().stored(i, j),
            self.grid().at(i, j) == self@[i * self.size_spec().1 + j],
    {
        lemma_row_major_index(self.size_spec().0, self.size_spec().1, i, j);
    }

    /// The element at offset `k` is that of one position of the shape: row
    /// `k / cols`, column `k % cols`.
    pub proof fn lemma_offset(&self, k: int)
        requires
            self.wf(),
            0 <= k < self@.len(),
        ensures
            ({
                let p = row_major(self.size_spec().0, self.size_spec().1)[k];
                &&& in_shape(self.size_spec(), p.0, p.1)
                &&& p.0 * self.size_spec().1 + p.1 == k
                &&& self.grid().stored(p.0, p.1)
                &&& self.grid().at(p.0, p.1) == self@[k]
            }),
    {
        lemma_row_major_pair(self.size_spec().0, self.size_spec().1, k);
    }

    /// A matrix of `m` rows and `n` columns over the elements `data`, which
    /// come row after row.
    pub fn new(m: usize, n: usize, data: Vec<T>) -> (r: DenseMatrix<T>)
        requires
            m * n == data.len(),
        ensures
            r.wf(),
            r.size_spec() == (m, n),
            r@ == data@,
    {
        DenseMatrix { m, n, data }
    }

    /// A matrix of `m` rows and `n` columns over the elements `data` if they
    /// fill that shape, and a refusal if not.
    pub fn try_new(m: usize, n: usize, data: Vec<T>) -> (r: Result<DenseMatrix<T>, ShapeMismatch>)
        ensures
            r.is_ok() <==> m * n == data.len(),
            r matches Ok(d) ==> d.wf() && d.size_spec() == (m, n) && d@ == data@,
    {
        match m.checked_mul(n) {
            Some(total) => {
                if total == data.len() {
                    Ok(DenseMatrix::new(m, n, data))
                } else {
                    Err(ShapeMismatch)
                }
            },
            None => Err(ShapeMismatch),
        }
    }

    /// A matrix of `m` rows and `n` columns that holds a clone of `init` at
    /// every position.
    pub fn from_elem(m: usize, n: usize, init: T) -> (r: DenseMatrix<T>) where T: Clone
        requires
            m * n <= usize::MAX,
        ensures
            r.wf(),
            r.size_spec() == (m, n),
            r@.len() == m * n,
            forall|k: int| 0 <= k < r@.len() ==> cloned(init, #[trigger] r@[k]),
            forall|i: usize, j: usize|
                in_shape((m, n), i, j) ==> cloned(init, #[trigger] r.grid().at(i, j)),
    {
        let total: usize = m * n;
        let mut data: Vec<T> = Vec::new();
        let mut k: usize = 0;
        while k < total
            invariant
                k <= total,
                data.len() == k,
                forall|q: int| 0 <= q < k ==> cloned(init, #[trigger] data@[q]),
            decreases total - k,
        {
            data.push(init.clone());
            k = k + 1;
        }
        let r = DenseMatrix::new(m, n, data);
        proof {
            assert forall|i: usize, j: usize| in_shape((m, n), i, j) implies cloned(
                init,
                #[trigger] r.grid().at(i, j),
            ) by {
                r.lemma_at(i, j);
            }
        }
        r
    }

    /// Transforms every element with `f`, which is also told the element's
    /// row and column.
    pub fn map<F: Fn(&T, usize, usize) -> T>(self, f: F) -> (r: DenseMatrix<T>)
        requires
            self.wf(),
            forall|i: usize, j: usize|
                in_shape(self.size_spec(), i, j) ==> call_requires(
                    f,
                    (&#[trigger] self.grid().at(i, j), i, j),
                ),
        ensures
            r.wf(),
            r.size_spec() == self.size_spec(),
            forall|i: usize, j: usize|
                in_shape(self.size_spec(), i, j) ==> call_ensures(
                    f,
                    (&self.grid().at(i, j), i, j),
                    #[trigger] r.grid().at(i, j),
                ),
    {
        let m = self.m;
        let n = self.n;
        let mut data: Vec<T> = Vec::new();
        let mut i: usize = 0;
        while i < m
            invariant
                self.wf(),
                m == self.m,
                n == self.n,
                i <= m,
                data.len() == i * n,
                forall|a: usize, b: usize|
                    in_shape(self.size_spec(), a, b) ==> call_requires(
                        f,
                        (&#[trigger] self.grid().at(a, b), a, b),
                    ),
                forall|a: usize, b: usize|
                    a < i && b < n ==> call_ensures(
                        f,
                        (&self.grid().at(a, b), a, b),
                        #[trigger] data@[a * n + b],
                    ),
            decreases m - i,
        {
            let mut j: usize = 0;
            while j < n
                invariant
                    self.wf(),
                    m == self.m,
                    n == self.n,
                    i < m,
                    j <= n,
                    data.len() == i * n + j,
                    forall|a: usize, b: usize|
                        in_shape(self.size_spec(), a, b) ==> call_requires(
                            f,
                            (&#[trigger] self.grid().at(a, b), a, b),
                        ),
                    forall|a: usize, b: usize|
                        (a < i && b < n) || (a == i && b < j) ==> call_ensures(
                            f,
                            (&self.grid().at(a, b), a, b),
                            #[trigger] data@[a * n + b],
                        ),
                decreases n - j,
            {
                proof {
                    self.lemma_at(i, j);
                }
                let v = f(&self.data[i * n + j], i, j);
                data.push(v);
                proof {
                    assert forall|a: usize, b: usize|
                        (a < i && b < n) || (a == i && b < j + 1) implies call_ensures(
                        f,
                        (&self.grid().at(a, b), a, b),
                        #[trigger] data@[a * n + b],
                    ) by {
                        if a != i || b != j {
                            lemma_before(n, a, b, i, j);
                        }
                    }
                }
                j = j + 1;
            }
            proof {
                assert((i + 1) * n == i * n + n) by (nonlinear_arith);
            }
            i = i + 1;
        }
        DenseMatrix::new(m, n, data)
    }
}

/// In row-major order, a position that comes before `(i, j)` has a smaller
/// offset.
proof fn lemma_before(n: usize, a: usize, b: usize, i: usize, j: usize)
    requires
        (a < i && b < n) || (a == i && b < j),
    ensures
        0 <= a * n + b < i * n + j,
{
    assert(0 <= a * n) by (nonlinear_arith)
        requires
            0 <= a,
            0 <= n,
    ;
    if a < i {
        assert(a * n + n <= i * n) by (nonlinear_arith)
            requires
                a + 1 <= i,
                0 <= n,
        ;
    }
}

impl<T> Matrix<T> for DenseMatrix<T> {
    /// The elements fill the shape.
    open spec fn wf(&self) -> bool {
        self@.len() == self.size_spec().0 * self.size_spec().1
    }

    /// Every position of the shape is held, with the element at its offset,
    /// and nothing is implicit.
    open spec fn grid(&self) -> Grid<T> {
        Grid {
            size: self.size_spec(),
            cells: Map::new(
                |p: (usize, usize)| in_shape(self.size_spec(), p.0, p.1),
                |p: (usize, usize)| self@[p.0 * self.size_spec().1 + p.1],
            ),
            implicit: None,
        }
    }

    /// Pairs the elements of the two matrices offset by offset and applies `f`
    /// to each pair.
    fn element_wise_binary_op<F: Fn((&T, &T)) -> T>(self, rhs: DenseMatrix<T>, f: F) -> (r:
        DenseMatrix<T>)
        ensures
            r.size_spec() == self.size_spec(),
            r@.len() == self@.len(),
            forall|k: int|
                0 <= k < self@.len() ==> call_ensures(f, ((&self@[k], &rhs@[k]),), #[trigger] r@[k]),
    {
        let len = self.data.len();
        let mut data: Vec<T> = Vec::new();
        proof {
            assert forall|q: int| 0 <= q < len implies call_requires(
                f,
                ((&#[trigger] self@[q], &rhs@[q]),),
            ) by {
                self.lemma_offset(q);
                rhs.lemma_offset(q);
                let p = row_major(self.size_spec().0, self.size_spec().1)[q];
                assert(self.grid().at(p.0, p.1) == self@[q] && rhs.grid().at(p.0, p.1) == rhs@[q]);
            }
        }
        let mut k: usize = 0;
        while k < len
            invariant
                k <= len,
                len == self.data.len(),
                len == rhs.data.len(),
                data.len() == k,
                forall|q: int|
                    0 <= q < len ==> call_requires(f, ((&#[trigger] self@[q], &rhs@[q]),)),
                forall|q: int|
                    0 <= q < k ==> call_ensures(f, ((&self@[q], &rhs@[q]),), #[trigger] data@[q]),
            decreases len - k,
        {
            assert(self@[k as int] == self.data@[k as int]);
            let v = f((&self.data[k], &rhs.data[k]));
            data.push(v);
            k = k + 1;
        }
        let r = DenseMatrix::new(self.m, self.n, data);
        proof {
            let img = |a: T, b: T, o: T| call_ensures(f, ((&a, &b),), o);
            assert forall|i: usize, j: usize|
                #![trigger r.grid().at(i, j)]
                #![trigger r.grid().stored(i, j)]
                if self.grid().stored(i, j) || rhs.grid().stored(i, j) {
                    img(self.grid().at(i, j), rhs.grid().at(i, j), r.grid().at(i, j))
                        && r.grid().keeps(i, j)
                } else {
                    !r.grid().stored(i, j)
                } by {
                if in_shape(self.size_spec(), i, j) {
                    self.lemma_at(i, j);
                    rhs.lemma_at(i, j);
                    r.lemma_at(i, j);
                }
            }
        }
        r
    }

    /// Applies `f` to every element.
    fn element_wise_unary_op<F: Fn(&T) -> T>(self, f: F) -> (r: DenseMatrix<T>)
        ensures
            r.size_spec() == self.size_spec(),
            r@.len() == self@.len(),
            forall|k: int| 0 <= k < self@.len() ==> call_ensures(f, (&self@[k],), #[trigger] r@[k]),
    {
        let len = self.data.len();
        let mut data: Vec<T> = Vec::new();
        proof {
            assert forall|q: int| 0 <= q < len implies call_requires(f, (&#[trigger] self@[q],)) by {
                self.lemma_offset(q);
                let p = row_major(self.size_spec().0, self.size_spec().1)[q];
                assert(self.grid().at(p.0, p.1) == self@[q]);
            }
        }
        let mut k: usize = 0;
        while k < len
            invariant
                k <= len,
                len == self.data.len(),
                data.len() == k,
                forall|q: int| 0 <= q < len ==> call_requires(f, (&#[trigger] self@[q],)),
                forall|q: int| 0 <= q < k ==> call_ensures(f, (&self@[q],), #[trigger] data@[q]),
            decreases len - k,
        {
            assert(self@[k as int] == self.data@[k as int]);
            let v = f(&self.data[k]);
            data.push(v);
            k = k + 1;
        }
        let r = DenseMatrix::new(self.m, self.n, data);
        proof {
            let img = |a: T, o: T| call_ensures(f, (&a,), o);
            assert forall|i: usize, j: usize|
                #![trigger r.grid().at(i, j)]
                #![trigger r.grid().stored(i, j)]
                r.grid().stored(i, j) == self.grid().stored(i, j) && (self.grid().stored(i, j)
                    ==> img(self.grid().at(i, j), r.grid().at(i, j))) by {
                if in_shape(self.size_spec(), i, j) {
                    self.lemma_at(i, j);
                    r.lemma_at(i, j);
                }
            }
        }
        r
    }

    fn size(&self) -> (usize, usize) {
        (self.m, self.n)
    }
}

/// Two dense matrices are equal when their shapes are equal and their elements
/// are equal offset by offset.
impl<T: PartialEq> PartialEq for DenseMatrix<T> {
    fn eq(&self, other: &DenseMatrix<T>) -> (r: bool)
        ensures
            r ==> self.size_spec() == other.size_spec() && self@.len() == other@.len()
                && forall|q: int|
                0 <= q < self@.len() ==> call_ensures(
                    T::eq,
                    (&#[trigger] self@[q], &other@[q]),
                    true,
                ),
            !r ==> self.size_spec() != other.size_spec() || self@.len() != other@.len()
                || exists|q: int|
                0 <= q < self@.len() && call_ensures(
                    T::eq,
                    (&#[trigger] self@[q], &other@[q]),
                    false,
                ),
    {
        if self.m != other.m || self.n != other.n || self.data.len() != other.data.len() {
            return false;
        }
        let len = self.data.len();
        let mut k: usize = 0;
        while k < len
            invariant
                k <= len,
                len == self.data.len(),
                len == other.data.len(),
                T::obeys_eq_spec() ==> forall|q: int|
                    0 <= q < k ==> (#[trigger] self.data@[q]).eq_spec(&other.data@[q]),
                forall|q: int|
                    0 <= q < k ==> call_ensures(
                        T::eq,
                        (&#[trigger] self.data@[q], &other.data@[q]),
                        true,
                    ),
            decreases len - k,
        {
            if !(self.data[k] == other.data[k]) {
                return false;
            }
            k = k + 1;
        }
        true
    }
}

impl<T: PartialEq> PartialEqSpecImpl for DenseMatrix<T> {
    open spec fn obeys_eq_spec() -> bool {
        T::obeys_eq_spec()
    }

    open spec fn eq_spec(&self, other: &DenseMatrix<T>) -> bool {
        &&& self.size_spec() == other.size_spec()
        &&& self@.len() == other@.len()
        &&& forall|q: int| 0 <= q < self@.len() ==> (#[trigger] self@[q]).eq_spec(&other@[q])
    }
}

/// `a + b` on two matrices is [`Matrix::__add`].
impl<T: Add<T, Output = T> + Copy> Add for DenseMatrix<T> {
    type Output = DenseMatrix<T>;

    fn add(self, rhs: DenseMatrix<T>) -> (r: DenseMatrix<T>)
        ensures
            r.wf(),
            binary_result(self.grid(), rhs.grid(), r.grid(), add_image::<T>()),
    {
        self.__add(rhs)
    }
}

impl<T: Add<T, Output = T> + Copy> AddSpecImpl for DenseMatrix<T> {
    open spec fn obeys_add_spec() -> bool {
        false
    }

    open spec fn add_req(self, rhs: DenseMatrix<T>) -> bool {
        &&& self.wf()
        &&& rhs.wf()
        &&& self.grid().size == rhs.grid().size
        &&& binary_domain(self.grid(), rhs.grid(), |a: T, b: T| a.add_req(b))
    }

    open spec fn add_spec(self, rhs: DenseMatrix<T>) -> DenseMatrix<T> {
        choose|r: DenseMatrix<T>|
            r.wf() && binary_result(self.grid(), rhs.grid(), r.grid(), add_image::<T>())
    }
}

/// `a + k` with a scalar `k` is [`Matrix::scalar_add`].
impl<T: Add<T, Output = T> + Copy> Add<T> for DenseMatrix<T> {
    type Output = DenseMatrix<T>;

    fn add(self, rhs: T) -> (r: DenseMatrix<T>)
        ensures
            r.wf(),
            unary_result(self.grid(), r.grid(), scalar_add_image(rhs)),
    {
        self.scalar_add(rhs)
    }
}

impl<T: Add<T, Output = T> + Copy> AddSpecImpl<T> for DenseMatrix<T> {
    open spec fn obeys_add_spec() -> bool {
        false
    }

    open spec fn add_req(self, rhs: T) -> bool {
        &&& self.wf()
        &&& unary_domain(self.grid(), |a: T| a.add_req(rhs))
    }

    open spec fn add_spec(self, rhs: T) -> DenseMatrix<T> {
        choose|r: DenseMatrix<T>|
            r.wf() && unary_result(self.grid(), r.grid(), scalar_add_image(rhs))
    }
}

/// `a - b` on two matrices is [`Matrix::__sub`].
impl<T: Sub<T, Output = T> + Copy> Sub for DenseMatrix<T> {
    type Output = DenseMatrix<T>;

    fn sub(self, rhs: DenseMatrix<T>) -> (r: DenseMatrix<T>)
        ensures
            r.wf(),
            binary_result(self.grid(), rhs.grid(), r.grid(), sub_image::<T>()),
    {
        self.__sub(rhs)
    }
}

impl<T: Sub<T, Output = T> + Copy> SubSpecImpl for DenseMatrix<T> {
    open spec fn obeys_sub_spec() -> bool {
        false
    }

    open spec fn sub_req(self, rhs: DenseMatrix<T>) -> bool {
        &&& self.wf()
        &&& rhs.wf()
        &&& self.grid().size == rhs.grid().size
        &&& binary_domain(self.grid(), rhs.grid(), |a: T, b: T| a.sub_req(b))
    }

    open spec fn sub_spec(self, rhs: DenseMatrix<T>) -> DenseMatrix<T> {
        choose|r: DenseMatrix<T>|
            r.wf() && binary_result(self.grid(), rhs.grid(), r.grid(), sub_image::<T>())
    }
}

/// `a - k` with a scalar `k` is [`Matrix::scalar_sub`].
impl<T: Sub<T, Output = T> + Copy> Sub<T> for DenseMatrix<T> {
    type Output = DenseMatrix<T>;

    fn sub(self, rhs: T) -> (r: DenseMatrix<T>)
        ensures
            r.wf(),
            unary_result(self.grid(), r.grid(), scalar_sub_image(rhs)),
    {
        self.scalar_sub(rhs)
    }
}

impl<T: Sub<T, Output = T> + Copy> SubSpecImpl<T> for DenseMatrix<T> {
    open spec fn obeys_sub_spec() -> bool {
        false
    }

    open spec fn sub_req(self, rhs: T) -> bool {
        &&& self.wf()
        &&& unary_domain(self.grid(), |a: T| a.sub_req(rhs))
    }

    open spec fn sub_spec(self, rhs: T) -> DenseMatrix<T> {
        choose|r: DenseMatrix<T>|
            r.wf() && unary_result(self.grid(), r.grid(), scalar_sub_image(rhs))
    }
}

/// `a * k` with a scalar `k` is [`Matrix::scalar_mul`].
impl<T: Mul<T, Output = T> + Copy> Mul<T> for DenseMatrix<T> {
    type Output = DenseMatrix<T>;

    fn mul(self, rhs: T) -> (r: DenseMatrix<T>)
        ensures
            r.wf(),
            unary_result(self.grid(), r.grid(), scalar_mul_image(rhs)),
    {
        self.scalar_mul(rhs)
    }
}

impl<T: Mul<T, Output = T> + Copy> MulSpecImpl<T> for DenseMatrix<T> {
    open spec fn obeys_mul_spec() -> bool {
        false
    }

    open spec fn mul_req(self, rhs: T) -> bool {
        &&& self.wf()
        &&& unary_domain(self.grid(), |a: T| rhs.mul_req(a))
    }

    open spec fn mul_spec(self, rhs: T) -> DenseMatrix<T> {
        choose|r: DenseMatrix<T>|
            r.wf() && unary_result(self.grid(), r.grid(), scalar_mul_image(rhs))
    }
}

/// `a / k` with a scalar `k` is [`Matrix::scalar_div`].
impl<T: Div<T, Output = T> + Copy> Div<T> for DenseMatrix<T> {
    type Output = DenseMatrix<T>;

    fn div(self, rhs: T) -> (r: DenseMatrix<T>)
        ensures
            r.wf(),
            unary_result(self.grid(), r.grid(), scalar_div_image(rhs)),
    {
        self.scalar_div(rhs)
    }
}

impl<T: Div<T, Output = T> + Copy> DivSpecImpl<T> for DenseMatrix<T> {
    open spec fn obeys_div_spec() -> bool {
        false
    }

    open spec fn div_req(self, rhs: T) -> bool {
        &&& self.wf()
        &&& unary_domain(self.grid(), |a: T| a.div_req(rhs))
    }

    open spec fn div_spec(self, rhs: T) -> DenseMatrix<T> {
        choose|r: DenseMatrix<T>|
            r.wf() && unary_result(self.grid(), r.grid(), scalar_div_image(rhs))
    }
}

/// `-a` is [`Matrix::__neg`].
impl<T: Neg<Output = T> + Copy> Neg for DenseMatrix<T> {
    type Output = DenseMatrix<T>;

    fn neg(self) -> (r: DenseMatrix<T>)
        ensures
            r.wf(),
            unary_result(self.grid(), r.grid(), neg_image::<T>()),
    {
        self.__neg()
    }
}

impl<T: Neg<Output = T> + Copy> NegSpecImpl for DenseMatrix<T> {
    open spec fn obeys_neg_spec() -> bool {
        false
    }

    open spec fn neg_req(self) -> bool {
        &&& self.wf()
        &&& unary_domain(self.grid(), |a: T| a.neg_req())
    }

    open spec fn neg_spec(self) -> DenseMatrix<T> {
        choose|r: DenseMatrix<T>| r.wf() && unary_result(self.grid(), r.grid(), neg_image::<T>())
    }
}

} // verus!
