//! Sparse storage: the elements that are not zero, by position.

use crate::matrix::Grid;
use crate::matrix::Matrix;
use crate::matrix::add_image;
use crate::matrix::binary_domain;
use crate::matrix::binary_result;
use crate::matrix::in_shape;
use crate::matrix::lemma_row_major_index;
use crate::matrix::lemma_row_major_pair;
use crate::matrix::neg_image;
use crate::matrix::row_major;
use crate::matrix::scalar_add_image;
use crate::matrix::scalar_div_image;
use crate::matrix::scalar_mul_image;
use crate::matrix::scalar_sub_image;
use crate::matrix::sub_image;
use crate::matrix::unary_cells;
use crate::matrix::unary_domain;
use crate::matrix::unary_result;
use crate::scalar::Scalar;
use std::collections::HashMap;
use std::ops::Add;
use std::ops::Div;
use std::ops::Mul;
use std::ops::Neg;
use std::ops::Sub;
use vstd::prelude::*;
use vstd::std_specs::cmp::PartialEqSpec;
use vstd::std_specs::cmp::PartialEqSpecImpl;
use vstd::std_specs::hash::spec_hash_map_iter;
use vstd::std_specs::iter::IteratorSpec;
use vstd::std_specs::ops::AddSpec;
use vstd::std_specs::ops::AddSpecImpl;
use vstd::std_specs::ops::DivSpec;
use vstd::std_specs::ops::DivSpecImpl;
use vstd::std_specs::ops::MulSpec;
use vstd::std_specs::ops::MulSpecImpl;
use vstd::std_specs::ops::NegSpec;
use vstd::std_specs::ops::NegSpecImpl;
use vstd::std_specs::ops::SubSpec;
use vstd::std_specs::ops::SubSpecImpl;

verus! {

broadcast use vstd::std_specs::hash::group_hash_axioms;

/// The key under which the element of position `(i, j)` is kept: the row in
/// the upper 64 bits, the column in the lower ones.
pub open spec fn key_of(i: usize, j: usize) -> u128 {
    (i * 0x1_0000_0000_0000_0000 + j) as u128
}

/// The position that a key stands for.
pub open spec fn pos_of(k: u128) -> (usize, usize) {
    ((k / 0x1_0000_0000_0000_0000) as usize, (k % 0x1_0000_0000_0000_0000) as usize)
}

/// Whether `k` is the key of a position.
pub open spec fn is_key(k: u128) -> bool {
    key_of(pos_of(k).0, pos_of(k).1) == k
}

/// Every position has a key of its own, from which it can be read back.
pub proof fn lemma_key_of(i: usize, j: usize)
    ensures
        is_key(key_of(i, j)),
        pos_of(key_of(i, j)) == (i, j),
{
}

/// The entries of `m` whose value is not the zero of `T`.
pub open spec fn without_zeros<K, T: Scalar>(m: Map<K, T>) -> Map<K, T> {
    Map::new(|k: K| m.contains_key(k) && m[k] != T::zero_spec(), |k: K| m[k])
}

/// What is left when the zeros are dropped holds no zero.
pub proof fn lemma_without_zeros_holds_no_zero<K, T: Scalar>(m: Map<K, T>)
    ensures
        forall|k: K| #[trigger]
            without_zeros(m).contains_key(k) ==> without_zeros(m)[k] != T::zero_spec(),
        forall|k: K| #[trigger]
            without_zeros(m).contains_key(k) ==> m.contains_key(k) && without_zeros(m)[k] == m[k],
        forall|k: K|
            m.contains_key(k) && m[k] != T::zero_spec() ==> #[trigger] without_zeros(
                m,
            ).contains_key(k),
{
}

/// Dropping the zeros of a mapping that holds none changes nothing.
pub proof fn lemma_without_zeros_of_clean<K, T: Scalar>(m: Map<K, T>)
    requires
        forall|k: K| #[trigger] m.contains_key(k) ==> m[k] != T::zero_spec(),
    ensures
        without_zeros(m) == m,
{
    assert(without_zeros(m) =~= m);
}

/// Dropping the zeros a second time changes nothing.
pub proof fn lemma_without_zeros_idempotent<K, T: Scalar>(m: Map<K, T>)
    ensures
        without_zeros(without_zeros(m)) == without_zeros(m),
{
    lemma_without_zeros_holds_no_zero(m);
    lemma_without_zeros_of_clean(without_zeros(m));
}

/// The mapping that a list of entries describes: where a position occurs more
/// than once, its last entry counts.
pub open spec fn entry_map<T>(entries: Seq<((usize, usize), T)>) -> Map<(usize, usize), T>
    decreases entries.len(),
{
    if entries.len() == 0 {
        Map::empty()
    } else {
        entry_map(entries.drop_last()).insert(entries.last().0, entries.last().1)
    }
}

/// The element that a keyed mapping gives for `k`, where `z` stands for what
/// it does not hold.
spec fn elem<T>(m: Map<u128, T>, k: u128, z: T) -> T {
    if m.contains_key(k) {
        m[k]
    } else {
        z
    }
}

/// A matrix that holds only the elements that are not zero, by position.
/// Every position that it does not hold stands for zero.
#[derive(Eq, Debug)]
pub struct NaiveSparseMatrix<T> {
    m: usize,
    n: usize,
    values: HashMap<u128, T>,
}

impl<T> View for NaiveSparseMatrix<T> {
    type V = Map<(usize, usize), T>;

    /// The elements held, by position.
    closed spec fn view(&self) -> Map<(usize, usize), T> {
        Map::new(
            |p: (usize, usize)| self.values@.contains_key(key_of(p.0, p.1)),
            |p: (usize, usize)| self.values@[key_of(p.0, p.1)],
        )
    }
}

impl<T> NaiveSparseMatrix<T> {
    /// The shape: rows, then columns.
    pub closed spec fn size_spec(&self) -> (usize, usize) {
        (self.m, self.n)
    }

    /// The elements held, by key.
    pub closed spec fn keyed_cells(&self) -> Map<u128, T> {
        self.values@
    }

    /// What is held for a position is what is held under the position's key.
    pub proof fn lemma_keyed_cells(&self, i: usize, j: usize)
        ensures
            self@.contains_key((i, j)) == self.keyed_cells().contains_key(key_of(i, j)),
            self@.contains_key((i, j)) ==> self@[(i, j)] == self.keyed_cells()[key_of(i, j)],
    {
    }
}

/// Two sparse matrices are equal when their shapes are equal and they hold
/// equal elements for the same keys.
impl<T: PartialEq> PartialEq for NaiveSparseMatrix<T> {
    fn eq(&self, other: &NaiveSparseMatrix<T>) -> (r: bool)
        ensures
            r ==> self.size_spec() == other.size_spec() && self.keyed_cells().dom()
                == other.keyed_cells().dom() && forall|k: u128| #[trigger]
                self.keyed_cells().contains_key(k) ==> call_ensures(
                    T::eq,
                    (&self.keyed_cells()[k], &other.keyed_cells()[k]),
                    true,
                ),
            !r ==> self.size_spec() != other.size_spec() || self.keyed_cells().dom()
                != other.keyed_cells().dom() || exists|k: u128| #[trigger]
                self.keyed_cells().contains_key(k) && call_ensures(
                    T::eq,
                    (&self.keyed_cells()[k], &other.keyed_cells()[k]),
                    false,
                ),
    {
        if self.m != other.m || self.n != other.n {
            return false;
        }
        let ghost a = self.values@;
        let ghost b = other.values@;
        let ghost s = spec_hash_map_iter(&self.values).remaining();
        for kv in it: self.values.iter()
            invariant
                it.seq() == s,
                s == spec_hash_map_iter(&self.values).remaining(),
                a == self.values@,
                b == other.values@,
                forall|q: int|
                    0 <= q < it.index() ==> b.contains_key(*(#[trigger] s[q]).0) && (
                    T::obeys_eq_spec() ==> (*s[q].1).eq_spec(&b[*s[q].0])) && call_ensures(
                        T::eq,
                        (s[q].1, &b[*s[q].0]),
                        true,
                    ),
        {
            let (k, v) = kv;
            match other.values.get(k) {
                Some(w) => {
                    if !(*v == *w) {
                        assert(self.keyed_cells().contains_key(*k) && b[*k] == *w && a[*k] == *v);
                        return false;
                    }
                },
                None => {
                    assert(self.keyed_cells().dom().contains(*k) && !other.keyed_cells().dom().contains(
                        *k,
                    ));
                    return false;
                },
            }
        }
        let ghost s2 = spec_hash_map_iter(&other.values).remaining();
        for kv in it: other.values.iter()
            invariant
                it.seq() == s2,
                s2 == spec_hash_map_iter(&other.values).remaining(),
                a == self.values@,
                b == other.values@,
                forall|q: int| 0 <= q < it.index() ==> a.contains_key(*(#[trigger] s2[q]).0),
        {
            let (k, w) = kv;
            if !self.values.contains_key(k) {
                assert(other.keyed_cells().dom().contains(*k) && !self.keyed_cells().dom().contains(
                    *k,
                ));
                return false;
            }
        }
        true
    }
}

impl<T: PartialEq> PartialEqSpecImpl for NaiveSparseMatrix<T> {
    open spec fn obeys_eq_spec() -> bool {
        T::obeys_eq_spec()
    }

    open spec fn eq_spec(&self, other: &NaiveSparseMatrix<T>) -> bool {
        &&& self.size_spec() == other.size_spec()
        &&& forall|k: u128|
            #![trigger self.keyed_cells().contains_key(k)]
            #![trigger other.keyed_cells().contains_key(k)]
            self.keyed_cells().contains_key(k) == other.keyed_cells().contains_key(k) && (
            self.keyed_cells().contains_key(k) ==> self.keyed_cells()[k].eq_spec(
                &other.keyed_cells()[k],
            ))
    }
}

/// Packs a position into its key.
fn pack(i: usize, j: usize) -> (k: u128)
    ensures
        k == key_of(i, j),
{
    let hi: u128 = i as u128;
    let lo: u128 = j as u128;
    hi * 0x1_0000_0000_0000_0000u128 + lo
}

impl<T: Scalar> NaiveSparseMatrix<T> {
    /// Every key in use is the key of a position.
    pub closed spec fn keyed(&self) -> bool {
        forall|k: u128| #[trigger] self.values@.contains_key(k) ==> is_key(k)
    }

    /// A matrix of `m` rows and `n` columns with the given entries, of which
    /// those with a zero value are left out. Of several entries for one
    /// position the last counts.
    pub fn new(m: usize, n: usize, values: Vec<((usize, usize), T)>) -> (r: NaiveSparseMatrix<T>)
        ensures
            r.wf(),
            r.size_spec() == (m, n),
            r@ == without_zeros(entry_map(values@)),
    {
        let mut map: HashMap<u128, T> = HashMap::new();
        let mut q: usize = 0;
        while q < values.len()
            invariant
                q <= values.len(),
                forall|k: u128| #[trigger] map@.contains_key(k) ==> is_key(k),
                forall|i: usize, j: usize|
                    #![trigger key_of(i, j)]
                    map@.contains_key(key_of(i, j)) == entry_map(
                        values@.subrange(0, q as int),
                    ).contains_key((i, j)),
                forall|i: usize, j: usize|
                    #![trigger key_of(i, j)]
                    map@.contains_key(key_of(i, j)) ==> map@[key_of(i, j)] == entry_map(
                        values@.subrange(0, q as int),
                    )[(i, j)],
            decreases values.len() - q,
        {
            let entry = values[q];
            let i = (entry.0).0;
            let j = (entry.0).1;
            map.insert(pack(i, j), entry.1);
            proof {
                let s0 = values@.subrange(0, q as int);
                let s1 = values@.subrange(0, q + 1);
                assert(s1.drop_last() == s0);
                lemma_key_of(i, j);
            }
            q = q + 1;
        }
        proof {
            assert(values@.subrange(0, q as int) == values@);
        }
        let r = NaiveSparseMatrix::from_map(m, n, map);
        proof {
            assert(r@ =~= without_zeros(entry_map(values@)));
        }
        r
    }

    /// A matrix over the entries of `values` that are not zero.
    fn from_map(m: usize, n: usize, values: HashMap<u128, T>) -> (r: NaiveSparseMatrix<T>)
        requires
            forall|k: u128| #[trigger] values@.contains_key(k) ==> is_key(k),
        ensures
            r.wf(),
            r.size_spec() == (m, n),
            r.values@ == without_zeros(values@),
    {
        let mut matrix = NaiveSparseMatrix { m, n, values };
        matrix.remove_zeros();
        matrix
    }

    /// Drops every entry whose value is zero, and nothing else. A well-formed
    /// matrix stays as it is.
    fn remove_zeros(&mut self)
        ensures
            final(self).size_spec() == old(self).size_spec(),
            final(self).values@ == without_zeros(old(self).values@),
            final(self).grid().normal(),
            old(self).keyed() ==> final(self).wf(),
            old(self).wf() ==> final(self).values@ == old(self).values@,
    {
        let mut kept: HashMap<u128, T> = HashMap::new();
        let ghost s = spec_hash_map_iter(&self.values).remaining();
        let ghost all = self.values@;
        for kv in it: self.values.iter()
            invariant
                it.seq() == s,
                s == spec_hash_map_iter(&self.values).remaining(),
                all == self.values@,
                forall|q: int|
                    0 <= q < it.index() && *s[q].1 != T::zero_spec() ==> kept@.contains_key(
                        *s[q].0,
                    ),
                forall|k: u128| #[trigger]
                    kept@.contains_key(k) ==> all.contains_key(k) && all[k] != T::zero_spec()
                        && kept@[k] == all[k],
        {
            let (k, v) = kv;
            if !v.is_zero() {
                kept.insert(*k, *v);
            }
        }
        proof {
            lemma_without_zeros_holds_no_zero(all);
            if old(self).wf() {
                assert forall|k: u128| #[trigger] all.contains_key(k) implies all[k]
                    != T::zero_spec() by {
                    old(self).lemma_keys_are_positions(k);
                }
                lemma_without_zeros_of_clean(all);
            }
        }
        self.values = kept;
    }

    /// A key in use by a well-formed matrix is the key of a position, the
    /// matrix holds for that position what stands under the key, and that is
    /// not zero.
    pub proof fn lemma_keys_are_positions(&self, k: u128)
        requires
            self.wf(),
            self.keyed_cells().contains_key(k),
        ensures
            is_key(k),
            self@.contains_key(pos_of(k)),
            self@[pos_of(k)] == self.keyed_cells()[k],
            self.keyed_cells()[k] != T::zero_spec(),
    {
        assert(self.grid().cells[pos_of(k)] == self.keyed_cells()[k]);
    }
}

impl<T: Scalar> Matrix<T> for NaiveSparseMatrix<T> {
    /// Every key in use is the key of a position, and no element held is zero.
    open spec fn wf(&self) -> bool {
        self.keyed() && self.grid().normal()
    }

    /// What is held is held by position, and zero stands everywhere else.
    open spec fn grid(&self) -> Grid<T> {
        Grid { size: self.size_spec(), cells: self@, implicit: Some(T::zero_spec()) }
    }

    /// Combines the entries of the two matrices position by position. A
    /// position that only one of them holds is combined with zero; a position
    /// that neither holds is not touched.
    fn element_wise_binary_op<F: Fn((&T, &T)) -> T>(self, rhs: NaiveSparseMatrix<T>, f: F) -> (r:
        NaiveSparseMatrix<T>) {
        let zero: T = T::zero();
        let ghost a = self.values@;
        let ghost b = rhs.values@;
        let ghost z = T::zero_spec();
        proof {
            assert forall|k: u128| a.contains_key(k) || b.contains_key(k) implies call_requires(
                f,
                ((&#[trigger] elem(a, k, z), &elem(b, k, z)),),
            ) by {
                let p = pos_of(k);
                assert(self.grid().at(p.0, p.1) == elem(a, k, z));
                assert(rhs.grid().at(p.0, p.1) == elem(b, k, z));
            }
        }
        let mut remaining = rhs.values;
        let mut tmp: HashMap<u128, T> = HashMap::new();
        let ghost s = spec_hash_map_iter(&self.values).remaining();
        for kv in it: self.values.iter()
            invariant
                it.seq() == s,
                s == spec_hash_map_iter(&self.values).remaining(),
                s.no_duplicates(),
                a == self.values@,
                z == T::zero_spec(),
                zero == z,
                forall|k: u128|
                    a.contains_key(k) || b.contains_key(k) ==> call_requires(
                        f,
                        ((&#[trigger] elem(a, k, z), &elem(b, k, z)),),
                    ),
                forall|k: u128| #[trigger]
                    tmp@.contains_key(k) ==> a.contains_key(k) && call_ensures(
                        f,
                        ((&elem(a, k, z), &elem(b, k, z)),),
                        tmp@[k],
                    ),
                forall|k: u128| #[trigger]
                    tmp@.contains_key(k) ==> exists|q: int|
                        0 <= q < it.index() && *(#[trigger] s[q]).0 == k,
                forall|q: int| 0 <= q < it.index() ==> tmp@.contains_key(*(#[trigger] s[q]).0),
                forall|k: u128| #[trigger]
                    remaining@.contains_key(k) <==> b.contains_key(k) && !tmp@.contains_key(k),
                forall|k: u128| #[trigger]
                    remaining@.contains_key(k) ==> remaining@[k] == b[k],
        {
            let (k, x) = kv;
            let v = match remaining.remove(k) {
                Some(y) => f((x, &y)),
                None => f((x, &zero)),
            };
            tmp.insert(*k, v);
        }
        let ghost s2 = spec_hash_map_iter(&remaining).remaining();
        let ghost rem = remaining@;
        for kv in it: remaining.iter()
            invariant
                it.seq() == s2,
                s2 == spec_hash_map_iter(&remaining).remaining(),
                rem == remaining@,
                z == T::zero_spec(),
                zero == z,
                forall|k: u128|
                    a.contains_key(k) || b.contains_key(k) ==> call_requires(
                        f,
                        ((&#[trigger] elem(a, k, z), &elem(b, k, z)),),
                    ),
                forall|k: u128| #[trigger]
                    tmp@.contains_key(k) ==> (a.contains_key(k) || b.contains_key(k))
                        && call_ensures(f, ((&elem(a, k, z), &elem(b, k, z)),), tmp@[k]),
                forall|k: u128| a.contains_key(k) ==> #[trigger] tmp@.contains_key(k),
                forall|q: int| 0 <= q < it.index() ==> tmp@.contains_key(*(#[trigger] s2[q]).0),
                forall|k: u128| #[trigger]
                    rem.contains_key(k) <==> b.contains_key(k) && !a.contains_key(k),
                forall|k: u128| #[trigger] rem.contains_key(k) ==> rem[k] == b[k],
        {
            let (k, y) = kv;
            let ghost idx = it.index() as int;
            proof {
                assert(rem.contains_key(*s2[idx].0) && rem[*s2[idx].0] == *s2[idx].1);
            }
            let v = f((&zero, y));
            tmp.insert(*k, v);
        }
        proof {
            assert forall|k: u128| b.contains_key(k) implies tmp@.contains_key(k) by {
                if !a.contains_key(k) {
                    assert(rem.contains_key(k));
                }
            }
        }
        let ghost before = self.grid();
        let ghost other = rhs.grid();
        let r = NaiveSparseMatrix::from_map(self.m, self.n, tmp);
        proof {
            let img = |x: T, y: T, o: T| call_ensures(f, ((&x, &y),), o);
            assert forall|i: usize, j: usize|
                #![trigger r.grid().at(i, j)]
                #![trigger r.grid().stored(i, j)]
                if before.stored(i, j) || other.stored(i, j) {
                    img(before.at(i, j), other.at(i, j), r.grid().at(i, j)) && r.grid().keeps(
                        i,
                        j,
                    )
                } else {
                    !r.grid().stored(i, j)
                } by {
                let k = key_of(i, j);
                if a.contains_key(k) || b.contains_key(k) {
                    assert(before.at(i, j) == elem(a, k, z));
                    assert(other.at(i, j) == elem(b, k, z));
                }
            }
        }
        r
    }

    /// Transforms the matrix with `f`. Where `f` takes zero to zero only the
    /// entries are transformed. Otherwise every position of the shape gets a
    /// new element: the image of its entry, or the image of zero.
    fn element_wise_unary_op<F: Fn(&T) -> T>(self, f: F) -> (r: NaiveSparseMatrix<T>) {
        let zero: T = T::zero();
        let ghost a = self.values@;
        let ghost z = T::zero_spec();
        let ghost before = self.grid();
        proof {
            assert forall|k: u128| a.contains_key(k) implies call_requires(
                f,
                (&#[trigger] a[k],),
            ) by {
                let p = pos_of(k);
                assert(before.at(p.0, p.1) == a[k]);
            }
        }
        let f0 = f(&zero);
        let mut tmp: HashMap<u128, T> = HashMap::new();
        if f0.is_zero() {
            let ghost s = spec_hash_map_iter(&self.values).remaining();
            for kv in it: self.values.iter()
                invariant
                    it.seq() == s,
                    s == spec_hash_map_iter(&self.values).remaining(),
                    a == self.values@,
                    forall|k: u128| a.contains_key(k) ==> call_requires(f, (&#[trigger] a[k],)),
                    forall|k: u128| #[trigger]
                        tmp@.contains_key(k) ==> a.contains_key(k) && call_ensures(
                            f,
                            (&a[k],),
                            tmp@[k],
                        ),
                    forall|q: int|
                        0 <= q < it.index() ==> tmp@.contains_key(*(#[trigger] s[q]).0),
            {
                let (k, x) = kv;
                let ghost idx = it.index() as int;
                proof {
                    assert(a.contains_key(*s[idx].0) && a[*s[idx].0] == *s[idx].1);
                }
                let v = f(x);
                tmp.insert(*k, v);
            }
        } else {
            let mut it = self.indices_iter();
            let ghost order = row_major(self.m, self.n);
            let mut done = false;
            proof {
                it.lemma_index_bound();
            }
            while !done
                invariant
                    it.wf(),
                    it.shape() == (self.m, self.n),
                    it.index() <= it.total(),
                    done ==> it.index() == it.total(),
                    order == row_major(self.m, self.n),
                    a == self.values@,
                    forall|k: u128| a.contains_key(k) ==> call_requires(f, (&#[trigger] a[k],)),
                    forall|k: u128| #[trigger]
                        tmp@.contains_key(k) ==> is_key(k) && in_shape(
                            (self.m, self.n),
                            pos_of(k).0,
                            pos_of(k).1,
                        ) && if a.contains_key(k) {
                            call_ensures(f, (&a[k],), tmp@[k])
                        } else {
                            tmp@[k] == f0
                        },
                    forall|q: int|
                        0 <= q < it.index() ==> tmp@.contains_key(
                            key_of((#[trigger] order[q]).0, order[q].1),
                        ),
                decreases it.total() - it.index() + if done { 0int } else { 1int },
            {
                let ghost idx = it.index() as int;
                match it.next() {
                    Some(pair) => {
                        let i = pair.0;
                        let j = pair.1;
                        proof {
                            lemma_row_major_pair(self.m, self.n, idx);
                            lemma_key_of(i, j);
                            it.lemma_index_bound();
                        }
                        let k = pack(i, j);
                        let v = match self.values.get(&k) {
                            Some(x) => f(x),
                            None => f0,
                        };
                        tmp.insert(k, v);
                    },
                    None => {
                        done = true;
                    },
                }
            }
            proof {
                assert forall|i: usize, j: usize|
                    in_shape((self.m, self.n), i, j) implies tmp@.contains_key(
                    #[trigger] key_of(i, j),
                ) by {
                    lemma_row_major_index(self.m, self.n, i, j);
                }
            }
        }
        let r = NaiveSparseMatrix::from_map(self.m, self.n, tmp);
        proof {
            let img = |x: T, o: T| call_ensures(f, (&x,), o);
            assert(unary_cells(before, r.grid(), img, z, f0));
        }
        r
    }

    fn size(&self) -> (usize, usize) {
        (self.m, self.n)
    }
}

/// `a + b` on two matrices is [`Matrix::__add`].
impl<T: Add<T, Output = T> + Scalar> Add for NaiveSparseMatrix<T> {
    type Output = NaiveSparseMatrix<T>;

    fn add(self, rhs: NaiveSparseMatrix<T>) -> (r: NaiveSparseMatrix<T>)
        ensures
            r.wf(),
            binary_result(self.grid(), rhs.grid(), r.grid(), add_image::<T>()),
    {
        self.__add(rhs)
    }
}

impl<T: Add<T, Output = T> + Scalar> AddSpecImpl for NaiveSparseMatrix<T> {
    open spec fn obeys_add_spec() -> bool {
        false
    }

    open spec fn add_req(self, rhs: NaiveSparseMatrix<T>) -> bool {
        &&& self.wf()
        &&& rhs.wf()
        &&& self.grid().size == rhs.grid().size
        &&& binary_domain(self.grid(), rhs.grid(), |a: T, b: T| a.add_req(b))
    }

    open spec fn add_spec(self, rhs: NaiveSparseMatrix<T>) -> NaiveSparseMatrix<T> {
        choose|r: NaiveSparseMatrix<T>|
            r.wf() && binary_result(self.grid(), rhs.grid(), r.grid(), add_image::<T>())
    }
}

/// `a + k` with a scalar `k` is [`Matrix::scalar_add`].
impl<T: Add<T, Output = T> + Scalar> Add<T> for NaiveSparseMatrix<T> {
    type Output = NaiveSparseMatrix<T>;

    fn add(self, rhs: T) -> (r: NaiveSparseMatrix<T>)
        ensures
            r.wf(),
            unary_result(self.grid(), r.grid(), scalar_add_image(rhs)),
    {
        self.scalar_add(rhs)
    }
}

impl<T: Add<T, Output = T> + Scalar> AddSpecImpl<T> for NaiveSparseMatrix<T> {
    open spec fn obeys_add_spec() -> bool {
        false
    }

    open spec fn add_req(self, rhs: T) -> bool {
        &&& self.wf()
        &&& unary_domain(self.grid(), |a: T| a.add_req(rhs))
    }

    open spec fn add_spec(self, rhs: T) -> NaiveSparseMatrix<T> {
        choose|r: NaiveSparseMatrix<T>|
            r.wf() && unary_result(self.grid(), r.grid(), scalar_add_image(rhs))
    }
}

/// `a - b` on two matrices is [`Matrix::__sub`].
impl<T: Sub<T, Output = T> + Scalar> Sub for NaiveSparseMatrix<T> {
    type Output = NaiveSparseMatrix<T>;

    fn sub(self, rhs: NaiveSparseMatrix<T>) -> (r: NaiveSparseMatrix<T>)
        ensures
            r.wf(),
            binary_result(self.grid(), rhs.grid(), r.grid(), sub_image::<T>()),
    {
        self.__sub(rhs)
    }
}

impl<T: Sub<T, Output = T> + Scalar> SubSpecImpl for NaiveSparseMatrix<T> {
    open spec fn obeys_sub_spec() -> bool {
        false
    }

    open spec fn sub_req(self, rhs: NaiveSparseMatrix<T>) -> bool {
        &&& self.wf()
        &&& rhs.wf()
        &&& self.grid().size == rhs.grid().size
        &&& binary_domain(self.grid(), rhs.grid(), |a: T, b: T| a.sub_req(b))
    }

    open spec fn sub_spec(self, rhs: NaiveSparseMatrix<T>) -> NaiveSparseMatrix<T> {
        choose|r: NaiveSparseMatrix<T>|
            r.wf() && binary_result(self.grid(), rhs.grid(), r.grid(), sub_image::<T>())
    }
}

/// `a - k` with a scalar `k` is [`Matrix::scalar_sub`].
impl<T: Sub<T, Output = T> + Scalar> Sub<T> for NaiveSparseMatrix<T> {
    type Output = NaiveSparseMatrix<T>;

    fn sub(self, rhs: T) -> (r: NaiveSparseMatrix<T>)
        ensures
            r.wf(),
            unary_result(self.grid(), r.grid(), scalar_sub_image(rhs)),
    {
        self.scalar_sub(rhs)
    }
}

impl<T: Sub<T, Output = T> + Scalar> SubSpecImpl<T> for NaiveSparseMatrix<T> {
    open spec fn obeys_sub_spec() -> bool {
        false
    }

    open spec fn sub_req(self, rhs: T) -> bool {
        &&& self.wf()
        &&& unary_domain(self.grid(), |a: T| a.sub_req(rhs))
    }

    open spec fn sub_spec(self, rhs: T) -> NaiveSparseMatrix<T> {
        choose|r: NaiveSparseMatrix<T>|
            r.wf() && unary_result(self.grid(), r.grid(), scalar_sub_image(rhs))
    }
}

/// `a * k` with a scalar `k` is [`Matrix::scalar_mul`].
impl<T: Mul<T, Output = T> + Scalar> Mul<T> for NaiveSparseMatrix<T> {
    type Output = NaiveSparseMatrix<T>;

    fn mul(self, rhs: T) -> (r: NaiveSparseMatrix<T>)
        ensures
            r.wf(),
            unary_result(self.grid(), r.grid(), scalar_mul_image(rhs)),
    {
        self.scalar_mul(rhs)
    }
}

impl<T: Mul<T, Output = T> + Scalar> MulSpecImpl<T> for NaiveSparseMatrix<T> {
    open spec fn obeys_mul_spec() -> bool {
        false
    }

    open spec fn mul_req(self, rhs: T) -> bool {
        &&& self.wf()
        &&& unary_domain(self.grid(), |a: T| rhs.mul_req(a))
    }

    open spec fn mul_spec(self, rhs: T) -> NaiveSparseMatrix<T> {
        choose|r: NaiveSparseMatrix<T>|
            r.wf() && unary_result(self.grid(), r.grid(), scalar_mul_image(rhs))
    }
}

/// `a / k` with a scalar `k` is [`Matrix::scalar_div`].
impl<T: Div<T, Output = T> + Scalar> Div<T> for NaiveSparseMatrix<T> {
    type Output = NaiveSparseMatrix<T>;

    fn div(self, rhs: T) -> (r: NaiveSparseMatrix<T>)
        ensures
            r.wf(),
            unary_result(self.grid(), r.grid(), scalar_div_image(rhs)),
    {
        self.scalar_div(rhs)
    }
}

impl<T: Div<T, Output = T> + Scalar> DivSpecImpl<T> for NaiveSparseMatrix<T> {
    open spec fn obeys_div_spec() -> bool {
        false
    }

    open spec fn div_req(self, rhs: T) -> bool {
        &&& self.wf()
        &&& unary_domain(self.grid(), |a: T| a.div_req(rhs))
    }

    open spec fn div_spec(self, rhs: T) -> NaiveSparseMatrix<T> {
        choose|r: NaiveSparseMatrix<T>|
            r.wf() && unary_result(self.grid(), r.grid(), scalar_div_image(rhs))
    }
}

/// `-a` is [`Matrix::__neg`].
impl<T: Neg<Output = T> + Scalar> Neg for NaiveSparseMatrix<T> {
    type Output = NaiveSparseMatrix<T>;

    fn neg(self) -> (r: NaiveSparseMatrix<T>)
        ensures
            r.wf(),
            unary_result(self.grid(), r.grid(), neg_image::<T>()),
    {
        self.__neg()
    }
}

impl<T: Neg<Output = T> + Scalar> NegSpecImpl for NaiveSparseMatrix<T> {
    open spec fn obeys_neg_spec() -> bool {
        false
    }

    open spec fn neg_req(self) -> bool {
        &&& self.wf()
        &&& unary_domain(self.grid(), |a: T| a.neg_req())
    }

    open spec fn neg_spec(self) -> NaiveSparseMatrix<T> {
        choose|r: NaiveSparseMatrix<T>| r.wf() && unary_result(self.grid(), r.grid(), neg_image::<T>())
    }
}

} // verus!
