//! Fixed-size matrices over a numeric element type.
pub mod vector;

pub use crate::matrix::vector::{Vector2, Vector3, VectorNT};

use crate::rational::gcd::gcd;
use crate::rational::ints::{lemma_quotient_of_multiple, lemma_units};
use crate::rational::{magnitude, Rational};
use core::ops::{Add, Index, IndexMut, Mul, Sub};
use vstd::array::spec_array_update;
use vstd::pervasive::arbitrary;
use vstd::prelude::*;
use vstd::std_specs::ops::{AddSpec, MulSpec, SubSpec};

verus! {

/// What a matrix needs of its elements: the two identities and total
/// `+`, `-` and `*` that are functions of their operands.
pub trait ValueT: Copy + Add<Output = Self> + Sub<Output = Self> + Mul<Output = Self> {
    /// The additive identity.
    spec fn zero_spec() -> Self;

    /// The multiplicative identity.
    spec fn one_spec() -> Self;

    /// Elements for which the identities act as identities. Values that
    /// poison every result they touch are not regular.
    spec fn regular(self) -> bool;

    fn zero() -> (r: Self)
        ensures
            r == Self::zero_spec(),
    ;

    fn one() -> (r: Self)
        ensures
            r == Self::one_spec(),
    ;

    /// The operators are defined everywhere and compute what `add_spec`,
    /// `sub_spec` and `mul_spec` say.
    proof fn lemma_total(a: Self, b: Self)
        ensures
            Self::obeys_add_spec(),
            Self::obeys_sub_spec(),
            Self::obeys_mul_spec(),
            a.add_req(b),
            a.sub_req(b),
            a.mul_req(b),
    ;

    /// On regular elements 0 is neutral for `+` and absorbing for `*`, and 1
    /// is neutral for `*`.
    proof fn lemma_identities(x: Self)
        requires
            x.regular(),
        ensures
            Self::zero_spec().add_spec(x) == x,
            x.add_spec(Self::zero_spec()) == x,
            Self::one_spec().mul_spec(x) == x,
            x.mul_spec(Self::one_spec()) == x,
            Self::zero_spec().mul_spec(x) == Self::zero_spec(),
            x.mul_spec(Self::zero_spec()) == Self::zero_spec(),
            Self::zero_spec().regular(),
            Self::one_spec().regular(),
    ;
}

impl ValueT for Rational {
    open spec fn zero_spec() -> Rational {
        Rational::zero_spec()
    }

    open spec fn one_spec() -> Rational {
        Rational::one_spec()
    }

    /// The numbers: every well-formed value but the non-finite one.
    open spec fn regular(self) -> bool {
        self.wf() && self.finite()
    }

    fn zero() -> (r: Rational) {
        Rational::zero()
    }

    fn one() -> (r: Rational) {
        Rational::one()
    }

    proof fn lemma_total(a: Rational, b: Rational) {
    }

    proof fn lemma_identities(x: Rational) {
        reveal(Rational::reduced);
        let n = x.numer();
        let d = x.denom();
        Rational::lemma_zero_one();
        x.lemma_raw_of_parts();
        Rational::lemma_reduced(n, d);
        Rational::lemma_reduced(0, d);
        lemma_units(n);
        lemma_units(d);
        assert(gcd(0, d as nat) == d) by {
            assert(0nat % (d as nat) == 0);
            assert(gcd(d as nat, 0) == d);
        }
        assert(magnitude(0) == 0);
        assert(0nat / (d as nat) == 0);
        lemma_quotient_of_multiple(1, d);
    }
}

/// A matrix of `N` rows and `M` columns.
#[derive(Clone, Copy)]
pub struct MatrixNMT<T: ValueT, const N: usize, const M: usize> {
    m: [[T; M]; N],
}

/// A square matrix.
pub type MatrixNT<T, const N: usize> = MatrixNMT<T, N, N>;

pub type Matrix3 = MatrixNT<Rational, 3>;

pub type Matrix4 = MatrixNT<Rational, 4>;

impl<T: ValueT, const N: usize, const M: usize> MatrixNMT<T, N, M> {
    /// The element in row `i` and column `j`.
    pub closed spec fn entry(self, i: int, j: int) -> T {
        self.m[i][j]
    }

    /// Row `i`.
    pub closed spec fn row(self, i: int) -> [T; M] {
        self.m[i]
    }

    /// Whether every element is what `f` gives for its row and column.
    pub open spec fn has_entries(self, f: spec_fn(int, int) -> T) -> bool {
        forall|i: int, j: int| 0 <= i < N && 0 <= j < M ==> self.entry(i, j) == f(i, j)
    }

    /// The first `k` elements of row `i` as `f` gives them.
    spec fn row_prefix(f: spec_fn(int, int) -> T, i: int, k: nat) -> [T; M]
        decreases k,
    {
        if k == 0 {
            arbitrary()
        } else {
            spec_array_update(Self::row_prefix(f, i, (k - 1) as nat), k - 1, f(i, k - 1))
        }
    }

    /// The first `k` rows as `f` gives them.
    spec fn rows_prefix(f: spec_fn(int, int) -> T, k: nat) -> [[T; M]; N]
        decreases k,
    {
        if k == 0 {
            arbitrary()
        } else {
            spec_array_update(
                Self::rows_prefix(f, (k - 1) as nat),
                k - 1,
                Self::row_prefix(f, k - 1, M as nat),
            )
        }
    }

    proof fn lemma_row_prefix(f: spec_fn(int, int) -> T, i: int, k: nat)
        requires
            k <= M,
        ensures
            forall|j: int| 0 <= j < k ==> (#[trigger] Self::row_prefix(f, i, k)[j]) == f(i, j),
        decreases k,
    {
        broadcast use vstd::array::group_array_axioms;

        if k > 0 {
            Self::lemma_row_prefix(f, i, (k - 1) as nat);
            let prev = Self::row_prefix(f, i, (k - 1) as nat);
            let cur = Self::row_prefix(f, i, k);
            assert(cur@ == prev@.update(k - 1, f(i, k - 1)));
            assert forall|j: int| 0 <= j < k implies (#[trigger] cur[j]) == f(i, j) by {
                if j < k - 1 {
                    assert(prev[j] == f(i, j));
                }
            }
        }
    }

    proof fn lemma_rows_prefix(f: spec_fn(int, int) -> T, k: nat)
        requires
            k <= N,
        ensures
            forall|i: int, j: int|
                0 <= i < k && 0 <= j < M ==> (#[trigger] Self::rows_prefix(f, k)[i][j]) == f(i, j),
        decreases k,
    {
        broadcast use vstd::array::group_array_axioms;

        if k > 0 {
            Self::lemma_rows_prefix(f, (k - 1) as nat);
            Self::lemma_row_prefix(f, k - 1, M as nat);
            let prev = Self::rows_prefix(f, (k - 1) as nat);
            let cur = Self::rows_prefix(f, k);
            let last = Self::row_prefix(f, k - 1, M as nat);
            assert(cur@ == prev@.update(k - 1, last));
            assert forall|i: int, j: int| 0 <= i < k && 0 <= j < M implies (#[trigger] cur[i][j])
                == f(i, j) by {
                if i < k - 1 {
                    assert(cur[i] == prev[i]);
                    assert(prev[i][j] == f(i, j));
                } else {
                    assert(cur[i] == last);
                    assert(last[j] == f(i, j));
                }
            }
        }
    }

    /// The matrix whose elements `f` gives.
    pub closed spec fn with_entries(f: spec_fn(int, int) -> T) -> Self {
        MatrixNMT { m: Self::rows_prefix(f, N as nat) }
    }

    /// `with_entries` has the elements it was given.
    pub proof fn lemma_entries(f: spec_fn(int, int) -> T)
        ensures
            Self::with_entries(f).has_entries(f),
    {
        Self::lemma_rows_prefix(f, N as nat);
    }

    /// The matrix of zeros.
    pub open spec fn zero_spec() -> Self {
        Self::with_entries(|i: int, j: int| T::zero_spec())
    }

    /// The elements of a row are the elements of the matrix.
    pub proof fn lemma_row(self, i: int, j: int)
        requires
            0 <= i < N,
            0 <= j < M,
        ensures
            self.row(i)[j] == self.entry(i, j),
    {
    }

    /// Matrices with the same elements are the same matrix.
    pub proof fn lemma_same(self, other: Self)
        requires
            forall|i: int, j: int| 0 <= i < N && 0 <= j < M ==> self.entry(i, j) == other.entry(i, j),
        ensures
            self == other,
    {
        assert forall|i: int| 0 <= i < N implies self.m[i] == other.m[i] by {
            assert forall|j: int| 0 <= j < M implies self.m[i][j] == other.m[i][j] by {
                assert(self.entry(i, j) == other.entry(i, j));
            }
            assert(self.m[i] =~= other.m[i]);
        }
        assert(self.m =~= other.m);
    }

    /// A matrix is the matrix that its own elements describe.
    pub proof fn lemma_with_entries(self, f: spec_fn(int, int) -> T)
        requires
            self.has_entries(f),
        ensures
            Self::with_entries(f) == self,
    {
        let r = Self::with_entries(f);
        Self::lemma_entries(f);
        self.lemma_same(r);
    }

    /// Replaces the element in row `i` and column `j`.
    pub fn set(&mut self, i: usize, j: usize, v: T)
        requires
            i < N,
            j < M,
        ensures
            final(self).entry(i as int, j as int) == v,
            forall|a: int, b: int|
                0 <= a < N && 0 <= b < M && !(a == i && b == j) ==> final(self).entry(a, b) == old(
                    self,
                ).entry(a, b),
    {
        let ghost before = self.m;
        let mut row = self.m[i];
        row[j] = v;
        self.m[i] = row;
        assert(self.m@ == before@.update(i as int, row));
        assert(row@ == before[i as int]@.update(j as int, v));
        assert forall|a: int, b: int|
            0 <= a < N && 0 <= b < M && !(a == i && b == j) implies self.m[a][b] == before[a][b] by {
            if a == i {
                assert(self.m[a] == row);
            } else {
                assert(self.m[a] == before[a]);
            }
        }
    }

    /// The element in row `i` and column `j`.
    pub fn get(&self, i: usize, j: usize) -> (v: T)
        requires
            i < N,
            j < M,
        ensures
            v == self.entry(i as int, j as int),
    {
        self.m[i][j]
    }

    /// The matrix of zeros.
    pub fn zero() -> (r: Self)
        ensures
            r == Self::zero_spec(),
            forall|i: int, j: int| 0 <= i < N && 0 <= j < M ==> r.entry(i, j) == T::zero_spec(),
    {
        let r = Self { m: [[T::zero(); M]; N] };
        proof {
            r.lemma_with_entries(|i: int, j: int| T::zero_spec());
        }
        r
    }
}

impl<T: ValueT, const N: usize> MatrixNMT<T, N, N> {
    /// The matrix with ones on the diagonal and zeros elsewhere.
    pub open spec fn identity_spec() -> Self {
        Self::with_entries(
            |i: int, j: int|
                if i == j {
                    T::one_spec()
                } else {
                    T::zero_spec()
                },
        )
    }

    /// The identity matrix.
    pub fn identity() -> (r: Self)
        ensures
            r == Self::identity_spec(),
            forall|i: int, j: int|
                0 <= i < N && 0 <= j < N ==> r.entry(i, j) == (if i == j {
                    T::one_spec()
                } else {
                    T::zero_spec()
                }),
    {
        let mut m = Self::zero();
        for i in 0..N
            invariant
                forall|a: int, b: int|
                    0 <= a < N && 0 <= b < N ==> m.entry(a, b) == (if a == b && a < i {
                        T::one_spec()
                    } else {
                        T::zero_spec()
                    }),
        {
            m.set(i, i, T::one());
        }
        proof {
            m.lemma_with_entries(
                |i: int, j: int|
                    if i == j {
                        T::one_spec()
                    } else {
                        T::zero_spec()
                    },
            );
        }
        m
    }
}


impl<T: ValueT, const N: usize, const M: usize> MatrixNMT<T, N, M> {
    /// Whether every element is regular.
    pub open spec fn regular(self) -> bool {
        forall|i: int, j: int| 0 <= i < N && 0 <= j < M ==> (#[trigger] self.entry(i, j)).regular()
    }

    /// The sum of the first `k` products of row `i` of `self` with column
    /// `j` of `rhs`, added up from the left starting at zero.
    pub open spec fn dot<const U: usize>(self, rhs: MatrixNMT<T, M, U>, i: int, j: int, k: nat) -> T
        decreases k,
    {
        if k == 0 {
            T::zero_spec()
        } else {
            self.dot(rhs, i, j, (k - 1) as nat).add_spec(
                self.entry(i, k - 1).mul_spec(rhs.entry(k - 1, j)),
            )
        }
    }
}

impl<T: ValueT, const N: usize, const M: usize> vstd::std_specs::ops::AddSpecImpl<MatrixNMT<T, N, M>> for MatrixNMT<T, N, M> {
    open spec fn obeys_add_spec() -> bool {
        true
    }

    open spec fn add_req(self, rhs: MatrixNMT<T, N, M>) -> bool {
        true
    }

    /// The element-wise sum.
    open spec fn add_spec(self, rhs: MatrixNMT<T, N, M>) -> MatrixNMT<T, N, M> {
        MatrixNMT::with_entries(|i: int, j: int| self.entry(i, j).add_spec(rhs.entry(i, j)))
    }
}

impl<T: ValueT, const N: usize, const M: usize> Add<MatrixNMT<T, N, M>> for MatrixNMT<T, N, M> {
    type Output = Self;

    fn add(self, rhs: MatrixNMT<T, N, M>) -> (res: Self)
        ensures
            forall|i: int, j: int|
                0 <= i < N && 0 <= j < M ==> res.entry(i, j) == self.entry(i, j).add_spec(
                    rhs.entry(i, j),
                ),
    {
        let mut res = rhs;
        for i in 0..N
            invariant
                forall|a: int, b: int|
                    0 <= a < i && 0 <= b < M ==> res.entry(a, b) == self.entry(a, b).add_spec(
                        rhs.entry(a, b),
                    ),
        {
            for j in 0..M
                invariant
                    i < N,
                    forall|a: int, b: int|
                        0 <= a < N && 0 <= b < M && (a < i || (a == i && b < j)) ==> res.entry(a, b)
                            == self.entry(a, b).add_spec(rhs.entry(a, b)),
            {
                proof {
                    T::lemma_total(self.entry(i as int, j as int), rhs.entry(i as int, j as int));
                }
                res.set(i, j, self.get(i, j) + rhs.get(i, j));
            }
        }
        proof {
            res.lemma_with_entries(|i: int, j: int| self.entry(i, j).add_spec(rhs.entry(i, j)));
        }
        res
    }
}

impl<T: ValueT, const N: usize, const M: usize> vstd::std_specs::ops::SubSpecImpl<MatrixNMT<T, N, M>> for MatrixNMT<T, N, M> {
    open spec fn obeys_sub_spec() -> bool {
        true
    }

    open spec fn sub_req(self, rhs: MatrixNMT<T, N, M>) -> bool {
        true
    }

    /// The element-wise difference.
    open spec fn sub_spec(self, rhs: MatrixNMT<T, N, M>) -> MatrixNMT<T, N, M> {
        MatrixNMT::with_entries(|i: int, j: int| self.entry(i, j).sub_spec(rhs.entry(i, j)))
    }
}

impl<T: ValueT, const N: usize, const M: usize> Sub<MatrixNMT<T, N, M>> for MatrixNMT<T, N, M> {
    type Output = Self;

    fn sub(self, rhs: MatrixNMT<T, N, M>) -> (res: Self)
        ensures
            forall|i: int, j: int|
                0 <= i < N && 0 <= j < M ==> res.entry(i, j) == self.entry(i, j).sub_spec(
                    rhs.entry(i, j),
                ),
    {
        let mut res = rhs;
        for i in 0..N
            invariant
                forall|a: int, b: int|
                    0 <= a < i && 0 <= b < M ==> res.entry(a, b) == self.entry(a, b).sub_spec(
                        rhs.entry(a, b),
                    ),
        {
            for j in 0..M
                invariant
                    i < N,
                    forall|a: int, b: int|
                        0 <= a < N && 0 <= b < M && (a < i || (a == i && b < j)) ==> res.entry(a, b)
                            == self.entry(a, b).sub_spec(rhs.entry(a, b)),
            {
                proof {
                    T::lemma_total(self.entry(i as int, j as int), rhs.entry(i as int, j as int));
                }
                res.set(i, j, self.get(i, j) - rhs.get(i, j));
            }
        }
        proof {
            res.lemma_with_entries(|i: int, j: int| self.entry(i, j).sub_spec(rhs.entry(i, j)));
        }
        res
    }
}

impl<T: ValueT, const N: usize, const M: usize, const U: usize> vstd::std_specs::ops::MulSpecImpl<MatrixNMT<T, M, U>> for MatrixNMT<T, N, M> {
    open spec fn obeys_mul_spec() -> bool {
        true
    }

    open spec fn mul_req(self, rhs: MatrixNMT<T, M, U>) -> bool {
        true
    }

    /// The matrix product: each element is the dot product of a row of
    /// `self` with a column of `rhs`.
    open spec fn mul_spec(self, rhs: MatrixNMT<T, M, U>) -> MatrixNMT<T, N, U> {
        MatrixNMT::with_entries(|i: int, j: int| self.dot(rhs, i, j, M as nat))
    }
}

impl<T: ValueT, const N: usize, const M: usize, const U: usize> Mul<MatrixNMT<T, M, U>> for MatrixNMT<T, N, M> {
    type Output = MatrixNMT<T, N, U>;

    fn mul(self, rhs: MatrixNMT<T, M, U>) -> (o: MatrixNMT<T, N, U>)
        ensures
            forall|i: int, j: int|
                0 <= i < N && 0 <= j < U ==> o.entry(i, j) == self.dot(rhs, i, j, M as nat),
    {
        let mut o = MatrixNMT::<T, N, U>::zero();
        for i in 0..N
            invariant
                forall|a: int, b: int|
                    0 <= a < N && 0 <= b < U ==> o.entry(a, b) == (if a < i {
                        self.dot(rhs, a, b, M as nat)
                    } else {
                        T::zero_spec()
                    }),
        {
            for j in 0..U
                invariant
                    i < N,
                    forall|a: int, b: int|
                        0 <= a < N && 0 <= b < U ==> o.entry(a, b) == (if a < i || (a == i && b
                            < j) {
                            self.dot(rhs, a, b, M as nat)
                        } else {
                            T::zero_spec()
                        }),
            {
                for k in 0..M
                    invariant
                        i < N,
                        j < U,
                        o.entry(i as int, j as int) == self.dot(rhs, i as int, j as int, k as nat),
                        forall|a: int, b: int|
                            0 <= a < N && 0 <= b < U && !(a == i && b == j) ==> o.entry(a, b) == (
                            if a < i || (a == i && b < j) {
                                self.dot(rhs, a, b, M as nat)
                            } else {
                                T::zero_spec()
                            }),
                {
                    let x = self.get(i, k);
                    let y = rhs.get(k, j);
                    let acc = o.get(i, j);
                    proof {
                        T::lemma_total(x, y);
                        T::lemma_total(acc, x.mul_spec(y));
                    }
                    o.set(i, j, acc + x * y);
                }
            }
        }
        proof {
            o.lemma_with_entries(|i: int, j: int| self.dot(rhs, i, j, M as nat));
        }
        o
    }
}

impl<T: ValueT, const N: usize, const M: usize> MatrixNMT<T, N, M> {
    /// Row `i` of the identity times column `j` of `self`, taken over the
    /// first `k` terms: nothing before the diagonal term, the element itself
    /// from there on.
    proof fn lemma_identity_dot_left(self, i: int, j: int, k: nat)
        requires
            self.regular(),
            0 <= i < N,
            0 <= j < M,
            k <= N,
        ensures
            MatrixNMT::<T, N, N>::identity_spec().dot(self, i, j, k) == (if k <= i {
                T::zero_spec()
            } else {
                self.entry(i, j)
            }),
        decreases k,
    {
        let id = MatrixNMT::<T, N, N>::identity_spec();
        MatrixNMT::<T, N, N>::lemma_entries(
            |a: int, b: int|
                if a == b {
                    T::one_spec()
                } else {
                    T::zero_spec()
                },
        );
        if k > 0 {
            self.lemma_identity_dot_left(i, j, (k - 1) as nat);
            let x = self.entry(k - 1, j);
            assert(x.regular());
            assert(self.entry(i, j).regular());
            T::lemma_identities(x);
            T::lemma_identities(self.entry(i, j));
            T::lemma_identities(T::zero_spec());
            assert(id.entry(i, k - 1) == (if i == k - 1 {
                T::one_spec()
            } else {
                T::zero_spec()
            }));
        }
    }

    /// Row `i` of `self` times column `j` of the identity, taken over the
    /// first `k` terms.
    proof fn lemma_identity_dot_right(self, i: int, j: int, k: nat)
        requires
            self.regular(),
            0 <= i < N,
            0 <= j < M,
            k <= M,
        ensures
            self.dot(MatrixNMT::<T, M, M>::identity_spec(), i, j, k) == (if k <= j {
                T::zero_spec()
            } else {
                self.entry(i, j)
            }),
        decreases k,
    {
        let id = MatrixNMT::<T, M, M>::identity_spec();
        MatrixNMT::<T, M, M>::lemma_entries(
            |a: int, b: int|
                if a == b {
                    T::one_spec()
                } else {
                    T::zero_spec()
                },
        );
        if k > 0 {
            self.lemma_identity_dot_right(i, j, (k - 1) as nat);
            let x = self.entry(i, k - 1);
            assert(x.regular());
            assert(self.entry(i, j).regular());
            T::lemma_identities(x);
            T::lemma_identities(self.entry(i, j));
            T::lemma_identities(T::zero_spec());
            assert(id.entry(k - 1, j) == (if k - 1 == j {
                T::one_spec()
            } else {
                T::zero_spec()
            }));
        }
    }

    /// The identity matrix is neutral for the matrix product, on the left
    /// and on the right, for every matrix of regular elements.
    pub proof fn lemma_identity_neutral(self)
        requires
            self.regular(),
        ensures
            MatrixNMT::<T, N, N>::identity_spec().mul_spec(self) == self,
            self.mul_spec(MatrixNMT::<T, M, M>::identity_spec()) == self,
    {
        let left = MatrixNMT::<T, N, N>::identity_spec();
        let right = MatrixNMT::<T, M, M>::identity_spec();
        assert forall|i: int, j: int| 0 <= i < N && 0 <= j < M implies self.entry(i, j) == left.dot(
            self,
            i,
            j,
            N as nat,
        ) && self.entry(i, j) == self.dot(right, i, j, M as nat) by {
            self.lemma_identity_dot_left(i, j, N as nat);
            self.lemma_identity_dot_right(i, j, M as nat);
        }
        self.lemma_with_entries(|i: int, j: int| left.dot(self, i, j, N as nat));
        self.lemma_with_entries(|i: int, j: int| self.dot(right, i, j, M as nat));
    }
}


impl<T: ValueT, const N: usize, const M: usize> vstd::std_specs::core::IndexSpecImpl<usize> for MatrixNMT<T, N, M> {
    /// Rows are numbered from 0 to `N - 1`.
    open spec fn index_req(&self, index: &usize) -> bool {
        *index < N
    }
}

impl<T: ValueT, const N: usize, const M: usize> Index<usize> for MatrixNMT<T, N, M> {
    type Output = [T; M];

    fn index(&self, i: usize) -> (row: &[T; M])
        ensures
            *row == self.row(i as int),
    {
        &self.m[i]
    }
}

impl<T: ValueT, const N: usize, const M: usize> IndexMut<usize> for MatrixNMT<T, N, M> {
    fn index_mut(&mut self, i: usize) -> (row: &mut [T; M])
        requires
            i < N,
        ensures
            *row == old(self).row(i as int),
            final(self).row(i as int) == *final(row),
            forall|a: int| 0 <= a < N && a != i ==> final(self).row(a) == old(self).row(a),
    {
        &mut self.m[i]
    }
}

} // verus!
