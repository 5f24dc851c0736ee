//! Row-major matrices: owned, of runtime or compile-time size, and views into slices.
use vstd::prelude::*;

use crate::linalg::vector::{Vector, VectorMut};
use crate::num_traits::FloatNumber;

verus! {

/// An immutable view window that acts like a row major matrix
#[derive(Debug, Clone, Copy)]
pub struct MatrixView<'a, T> {
    data: &'a [T],
    ncolumns: usize,
}

/// An mutable view window that acts like a row major matrix
#[derive(Debug)]
pub struct MatrixViewMut<'a, T> {
    data: &'a mut [T],
    ncolumns: usize,
}

/// a matrix with owned data, of compile-time size
pub struct StaticMatrix<T, const NR: usize, const NC: usize> {
    data: [[T; NC]; NR],
}

/// a matrix with owned data, of runtime size
#[derive(Debug)]
pub struct DynamicMatrix<T> {
    data: Vec<T>,
    ncolumns: usize,
}

/// `acc + x[0] y[0] + x[1] y[1] + ... `, summed from the left.
pub open spec fn sum_products<T: FloatNumber>(acc: T, xs: Seq<T>, ys: Seq<T>) -> T
    decreases xs.len(),
{
    if xs.len() == 0 {
        acc
    } else {
        sum_products(acc, xs.drop_last(), ys).add_spec(xs.last().mul_spec(ys[xs.len() - 1]))
    }
}

/// Row `i` of a row-major matrix with `nc` columns stored in `data`.
pub open spec fn row_of<T>(data: Seq<T>, nc: nat, i: int) -> Seq<T> {
    data.subrange(i * nc, i * nc + nc)
}

/// Column `j`, restricted to its first `nr` rows, of a row-major matrix with `nc` columns.
pub open spec fn column_of<T>(data: Seq<T>, nc: nat, nr: nat, j: int) -> Seq<T> {
    Seq::new(nr, |i: int| data[i * nc + j])
}

/// `sum_products` only reads as many entries of `ys` as `xs` has.
pub proof fn lemma_sum_products_prefix<T: FloatNumber>(acc: T, xs: Seq<T>, ys: Seq<T>, zs: Seq<T>)
    requires
        xs.len() <= ys.len(),
        xs.len() <= zs.len(),
        forall|k: int| 0 <= k < xs.len() ==> ys[k] == zs[k],
    ensures
        sum_products(acc, xs, ys) == sum_products(acc, xs, zs),
    decreases xs.len(),
{
    if xs.len() > 0 {
        lemma_sum_products_prefix(acc, xs.drop_last(), ys, zs);
    }
}

/// Common matrix methods: a matrix is a row-major sequence of entries with a shape.
pub trait Matrix<T> {
    /// The entries, row after row.
    spec fn elems(&self) -> Seq<T>;

    spec fn nrows(&self) -> nat;

    spec fn ncols(&self) -> nat;

    /// The shape can be computed (a dynamic matrix needs at least one column for it).
    spec fn has_shape(&self) -> bool;

    /// `[rows, columns]`
    fn shape(&self) -> (s: [usize; 2])
        requires
            self.has_shape(),
        ensures
            s[0] == self.nrows(),
            s[1] == self.ncols(),
            self.nrows() * self.ncols() <= self.elems().len(),
    ;

    fn data(&self) -> (d: &[T])
        ensures
            d@ == self.elems(),
    ;

    fn view<'a>(&'a self) -> (v: MatrixView<'a, T>)
        requires
            self.has_shape(),
        ensures
            v.entries() == self.elems(),
            v.columns() == self.ncols(),
    {
        let s = self.shape();
        MatrixView { data: self.data(), ncolumns: s[1] }
    }

    /// `result = self rhs`
    fn imul<'a, A, B>(&'a self, result: &mut A, rhs: &B) where
        A: VectorMut<T>,
        B: Vector<T>,
        T: FloatNumber,

        requires
            self.has_shape(),
            self.nrows() == old(result).elems().len(),
            self.ncols() == rhs.elems().len(),
        ensures
            final(result).elems().len() == old(result).elems().len(),
            forall|i: int|
                0 <= i < self.nrows() ==> #[trigger] final(result).elems()[i] == sum_products(
                    T::zero_spec(),
                    row_of(self.elems(), self.ncols(), i),
                    rhs.elems(),
                ),
    {
        let s = self.shape();
        let nr = s[0];
        let nc = s[1];
        let a = self.data();
        let x = rhs.data();
        let r = result.data_mut();
        let alen = a.len();
        let mut i: usize = 0;
        while i < nr
            invariant
                nr == self.nrows(),
                nc == self.ncols(),
                nr * nc <= a@.len(),
                alen == a@.len(),
                a@ == self.elems(),
                x@ == rhs.elems(),
                x@.len() == nc,
                r@.len() == nr,
                i <= nr,
                forall|k: int|
                    0 <= k < i ==> #[trigger] r@[k] == sum_products(T::zero_spec(), row_of(a@, nc as nat, k), x@),
            decreases nr - i,
        {
            proof {
                vstd::arithmetic::mul::lemma_mul_inequality(i + 1, nr as int, nc as int);
                vstd::arithmetic::mul::lemma_mul_is_distributive_add_other_way(nc as int, i as int, 1);
                assert((i + 1) * nc == i * nc + nc);
                assert(i * nc + nc <= alen);
            }
            let ghost row = row_of(a@, nc as nat, i as int);
            let base = i * nc;
            let mut ai = T::zero();
            let mut j: usize = 0;
            while j < nc
                invariant
                    base == i * nc,
                    base + nc <= a@.len(),
                    alen == a@.len(),
                    row == a@.subrange(base as int, base + nc),
                    x@.len() == nc,
                    j <= nc,
                    ai == sum_products(T::zero_spec(), row.take(j as int), x@),
                decreases nc - j,
            {
                proof {
                    assert(row.take(j + 1).drop_last() =~= row.take(j as int));
                }
                ai = ai.float_add(a[base + j].float_mul(x[j]));
                j = j + 1;
            }
            proof {
                assert(row.take(nc as int) =~= row);
            }
            r[i] = ai;
            i = i + 1;
        }
    }

    /// `result += lhs^T self`, accumulated row after row.
    fn imul_left<'a, A, B>(&'a self, result: &mut A, lhs: &B) where
        A: VectorMut<T>,
        B: Vector<T>,
        T: FloatNumber,

        requires
            self.has_shape(),
            self.nrows() == lhs.elems().len(),
            self.ncols() == old(result).elems().len(),
        ensures
            final(result).elems().len() == old(result).elems().len(),
            forall|j: int|
                0 <= j < self.ncols() ==> #[trigger] final(result).elems()[j] == sum_products(
                    old(result).elems()[j],
                    lhs.elems(),
                    column_of(self.elems(), self.ncols(), self.nrows(), j),
                ),
    {
        let s = self.shape();
        let nr = s[0];
        let nc = s[1];
        let a = self.data();
        let x = lhs.data();
        let r = result.data_mut();
        let ghost old_r = r@;
        let alen = a.len();
        let mut i: usize = 0;
        while i < nr
            invariant
                nr == self.nrows(),
                nc == self.ncols(),
                nr * nc <= a@.len(),
                alen == a@.len(),
                a@ == self.elems(),
                x@ == lhs.elems(),
                x@.len() == nr,
                r@.len() == nc,
                old_r.len() == nc,
                i <= nr,
                forall|j: int|
                    0 <= j < nc ==> #[trigger] r@[j] == sum_products(
                        old_r[j],
                        x@.take(i as int),
                        column_of(a@, nc as nat, i as nat, j),
                    ),
            decreases nr - i,
        {
            proof {
                vstd::arithmetic::mul::lemma_mul_inequality(i + 1, nr as int, nc as int);
                vstd::arithmetic::mul::lemma_mul_is_distributive_add_other_way(nc as int, i as int, 1);
                assert((i + 1) * nc == i * nc + nc);
                assert(i * nc + nc <= alen);
            }
            let base = i * nc;
            let mut j: usize = 0;
            while j < nc
                invariant
                    base == i * nc,
                    base + nc <= a@.len(),
                    alen == a@.len(),
                    i < nr,
                    x@.len() == nr,
                    r@.len() == nc,
                    old_r.len() == nc,
                    j <= nc,
                    forall|k: int|
                        0 <= k < j ==> #[trigger] r@[k] == sum_products(
                            old_r[k],
                            x@.take(i + 1),
                            column_of(a@, nc as nat, (i + 1) as nat, k),
                        ),
                    forall|k: int|
                        j <= k < nc ==> #[trigger] r@[k] == sum_products(
                            old_r[k],
                            x@.take(i as int),
                            column_of(a@, nc as nat, i as nat, k),
                        ),
                decreases nc - j,
            {
                proof {
                    let k = j as int;
                    let xs = x@.take(i + 1);
                    let col1 = column_of(a@, nc as nat, (i + 1) as nat, k);
                    let col0 = column_of(a@, nc as nat, i as nat, k);
                    assert(xs.drop_last() =~= x@.take(i as int));
                    lemma_sum_products_prefix(old_r[k], x@.take(i as int), col1, col0);
                }
                let v = x[i].float_mul(a[base + j]);
                r[j] = r[j].float_add(v);
                j = j + 1;
            }
            i = i + 1;
        }
        proof {
            assert(x@.take(nr as int) =~= x@);
        }
    }
}

impl<'a, T> MatrixView<'a, T> {
    /// The entries seen through the view, row after row.
    pub closed spec fn entries(&self) -> Seq<T> {
        self.data@
    }

    /// Number of columns of the view.
    pub closed spec fn columns(&self) -> nat {
        self.ncolumns as nat
    }
}

impl<T> Matrix<T> for DynamicMatrix<T> {
    closed spec fn elems(&self) -> Seq<T> {
        self.data@
    }

    closed spec fn nrows(&self) -> nat {
        self.data@.len() / (self.ncolumns as nat)
    }

    closed spec fn ncols(&self) -> nat {
        self.ncolumns as nat
    }

    closed spec fn has_shape(&self) -> bool {
        self.ncolumns > 0
    }

    fn shape(&self) -> (s: [usize; 2]) {
        proof {
            vstd::arithmetic::div_mod::lemma_fundamental_div_mod(self.data@.len() as int, self.ncolumns as int);
            vstd::arithmetic::mul::lemma_mul_is_commutative(self.ncolumns as int, (self.data@.len() / (self.ncolumns as nat)) as int);
        }
        let nr = self.data.len() / self.ncolumns;
        let s = [nr, self.ncolumns];
        assert(s[0] == nr && s[1] == self.ncolumns);
        assert(nr == self.nrows());
        assert(self.nrows() * self.ncols() <= self.elems().len());
        s
    }

    fn data(&self) -> (d: &[T]) {
        self.data.as_slice()
    }
}

impl<T> core::ops::Index<[usize; 2]> for DynamicMatrix<T> {
    type Output = T;

    fn index(&self, index: [usize; 2]) -> (r: &T)
        ensures
            *r == self.elems()[index[0] * self.ncols() + index[1]],
    {
        let n = self.data.len();
        proof {
            assert(index[0] * self.ncolumns + index[1] < n);
        }
        &self.data[index[0] * self.ncolumns + index[1]]
    }
}

impl<T> vstd::std_specs::core::IndexSpecImpl<[usize; 2]> for DynamicMatrix<T> {
    open spec fn index_req(&self, index: &[usize; 2]) -> bool {
        index[0] * self.ncols() + index[1] < self.elems().len()
    }
}

impl<T> DynamicMatrix<T> {
    /// The entry at `(index[0], index[1])`, the value of `m[index]`.
    pub fn get(&self, index: [usize; 2]) -> (r: T) where T: Copy
        requires
            index[0] * self.ncols() + index[1] < self.elems().len(),
        ensures
            r == self.elems()[index[0] * self.ncols() + index[1]],
    {
        let n = self.data.len();
        proof {
            assert(index[0] * self.ncolumns + index[1] < n);
        }
        self.data[index[0] * self.ncolumns + index[1]]
    }

    /// Writes `value` at `(index[0], index[1])`, the assignment `m[index] = value`.
    pub fn set(&mut self, index: [usize; 2], value: T)
        requires
            index[0] * old(self).ncols() + index[1] < old(self).elems().len(),
        ensures
            final(self).elems() == old(self).elems().update(index[0] * old(self).ncols() + index[1], value),
            final(self).ncols() == old(self).ncols(),
            final(self).nrows() == old(self).nrows(),
            final(self).has_shape() == old(self).has_shape(),
    {
        let n = self.data.len();
        proof {
            assert(index[0] * self.ncolumns + index[1] < n);
        }
        self.data.set(index[0] * self.ncolumns + index[1], value);
    }
}

/// Common mutable matrix methods.
pub trait MatrixMut<T>: Matrix<T> {
    /// The entries, row after row, to be written in place; the shape stays.
    fn data_mut(&mut self) -> (d: &mut [T])
        ensures
            d@ == old(self).elems(),
            final(self).elems() == final(d)@,
            final(self).ncols() == old(self).ncols(),
            final(self).elems().len() == old(self).elems().len() ==> final(self).nrows() == old(self).nrows()
                && final(self).has_shape() == old(self).has_shape(),
    ;
}

impl<T> MatrixMut<T> for DynamicMatrix<T> {
    fn data_mut(&mut self) -> (d: &mut [T]) {
        self.data.as_mut_slice()
    }
}

impl<T> DynamicMatrix<T> {
    /// A matrix of the given shape with every entry `value`.
    pub fn new(value: T, shape: [usize; 2]) -> (m: Self) where T: Copy
        requires
            shape[0] * shape[1] <= usize::MAX,
        ensures
            m.elems() == Seq::new((shape[0] * shape[1]) as nat, |k: int| value),
            m.ncols() == shape[1],
            m.has_shape() <==> shape[1] > 0,
            shape[1] > 0 ==> m.nrows() == shape[0],
    {
        let n = shape[0] * shape[1];
        let mut data = Vec::new();
        let mut i: usize = 0;
        while i < n
            invariant
                i <= n,
                data@ == Seq::new(i as nat, |k: int| value),
            decreases n - i,
        {
            data.push(value);
            i = i + 1;
            proof {
                assert(data@ =~= Seq::new(i as nat, |k: int| value));
            }
        }
        proof {
            if shape[1] > 0 {
                vstd::arithmetic::div_mod::lemma_div_by_multiple(shape[0] as int, shape[1] as int);
            }
        }
        Self { data, ncolumns: shape[1] }
    }

    /// The identity pattern: 1 on the diagonal, 0 elsewhere.
    pub fn eye(shape: [usize; 2]) -> (m: Self) where T: FloatNumber
        requires
            shape[0] * shape[1] <= usize::MAX,
        ensures
            m.elems().len() == shape[0] * shape[1],
            m.ncols() == shape[1],
            m.has_shape() <==> shape[1] > 0,
            shape[1] > 0 ==> m.nrows() == shape[0],
            forall|i: int, j: int|
                0 <= i < shape[0] && 0 <= j < shape[1] ==> #[trigger] m.elems()[i * shape[1] + j] == if i == j {
                    T::from_i32_spec(1)
                } else {
                    T::from_i32_spec(0)
                },
    {
        let mut m = Self::new(T::float_from_i32(0), shape);
        let d = if shape[0] < shape[1] {
            shape[0]
        } else {
            shape[1]
        };
        let one = T::float_from_i32(1);
        let nc = shape[1];
        let ghost zero = T::from_i32_spec(0);
        proof {
            assert forall|a: int, b: int|
                0 <= a < shape[0] && 0 <= b < shape[1] implies #[trigger] m.data@[a * nc + b] == zero by {
                lemma_row_major_index(a, b, shape[0] as int, nc as int);
            }
        }
        let mut i: usize = 0;
        while i < d
            invariant
                d <= shape[0],
                d <= shape[1],
                nc == shape[1],
                shape[0] * shape[1] <= usize::MAX,
                m.ncolumns == nc,
                m.data@.len() == shape[0] * shape[1],
                i <= d,
                one == T::from_i32_spec(1),
                forall|a: int, b: int|
                    0 <= a < shape[0] && 0 <= b < shape[1] ==> #[trigger] m.data@[a * nc + b] == if a == b && a < i {
                        one
                    } else {
                        zero
                    },
            decreases d - i,
        {
            proof {
                lemma_row_major_index(i as int, i as int, shape[0] as int, nc as int);
            }
            let k = i * nc + i;
            m.data.set(k, one);
            proof {
                assert forall|a: int, b: int|
                    0 <= a < shape[0] && 0 <= b < shape[1] implies #[trigger] m.data@[a * nc + b] == if a == b && a < i + 1 {
                        one
                    } else {
                        zero
                    } by {
                    lemma_row_major_index(a, b, shape[0] as int, nc as int);
                    if a * nc + b == k {
                        lemma_row_major_unique(a, b, i as int, i as int, nc as int);
                    }
                }
            }
            i = i + 1;
        }
        proof {
            if shape[1] > 0 {
                vstd::arithmetic::div_mod::lemma_div_by_multiple(shape[0] as int, shape[1] as int);
            }
        }
        m
    }
}

/// Entry `(i, j)` of an `nr` by `nc` row-major matrix lies within its storage.
pub proof fn lemma_row_major_index(i: int, j: int, nr: int, nc: int)
    requires
        0 <= i < nr,
        0 <= j < nc,
    ensures
        0 <= i * nc + j < nr * nc,
        i * nc + j + 1 <= nr * nc,
{
    vstd::arithmetic::mul::lemma_mul_inequality(i + 1, nr, nc);
    vstd::arithmetic::mul::lemma_mul_is_distributive_add_other_way(nc, i, 1);
    vstd::arithmetic::mul::lemma_mul_nonnegative(i, nc);
}

/// Distinct positions of a row-major matrix are stored at distinct offsets.
pub proof fn lemma_row_major_unique(a: int, b: int, c: int, d: int, nc: int)
    requires
        0 <= b < nc,
        0 <= d < nc,
        0 <= a,
        0 <= c,
        a * nc + b == c * nc + d,
    ensures
        a == c,
        b == d,
{
    vstd::arithmetic::div_mod::lemma_fundamental_div_mod_converse(a * nc + b, nc, a, b);
    vstd::arithmetic::div_mod::lemma_fundamental_div_mod_converse(c * nc + d, nc, c, d);
}

impl<T> From<([usize; 2], Vec<T>)> for DynamicMatrix<T> {
    fn from(value: ([usize; 2], Vec<T>)) -> (m: Self)
        ensures
            m.elems() == value.1@,
            m.ncols() == value.0[1],
    {
        Self { data: value.1, ncolumns: value.0[1] }
    }
}

impl<T> vstd::std_specs::convert::FromSpecImpl<([usize; 2], Vec<T>)> for DynamicMatrix<T> {
    open spec fn obeys_from_spec() -> bool {
        true
    }

    closed spec fn from_spec(v: ([usize; 2], Vec<T>)) -> Self {
        DynamicMatrix { data: v.1, ncolumns: v.0[1] }
    }
}

impl<'a, T> Matrix<T> for MatrixView<'a, T> {
    closed spec fn elems(&self) -> Seq<T> {
        self.data@
    }

    closed spec fn nrows(&self) -> nat {
        self.data@.len() / (self.ncolumns as nat)
    }

    closed spec fn ncols(&self) -> nat {
        self.ncolumns as nat
    }

    closed spec fn has_shape(&self) -> bool {
        self.ncolumns > 0
    }

    fn shape(&self) -> (s: [usize; 2]) {
        proof {
            vstd::arithmetic::div_mod::lemma_fundamental_div_mod(self.data@.len() as int, self.ncolumns as int);
            vstd::arithmetic::mul::lemma_mul_is_commutative(self.ncolumns as int, (self.data@.len() / (self.ncolumns as nat)) as int);
        }
        let nr = self.data.len() / self.ncolumns;
        let s = [nr, self.ncolumns];
        assert(s[0] == nr && s[1] == self.ncolumns);
        assert(nr == self.nrows());
        assert(self.nrows() * self.ncols() <= self.elems().len());
        s
    }

    fn data(&self) -> (d: &[T]) {
        self.data
    }
}

impl<'a, T> core::ops::Index<[usize; 2]> for MatrixView<'a, T> {
    type Output = T;

    fn index(&self, index: [usize; 2]) -> (r: &T)
        ensures
            *r == self.elems()[index[0] * self.ncols() + index[1]],
    {
        let n = self.data.len();
        proof {
            assert(index[0] * self.ncolumns + index[1] < n);
        }
        &self.data[index[0] * self.ncolumns + index[1]]
    }
}

impl<'a, T> vstd::std_specs::core::IndexSpecImpl<[usize; 2]> for MatrixView<'a, T> {
    open spec fn index_req(&self, index: &[usize; 2]) -> bool {
        index[0] * self.ncols() + index[1] < self.elems().len()
    }
}

impl<'a, T> core::ops::Index<[usize; 2]> for MatrixViewMut<'a, T> {
    type Output = T;

    fn index(&self, index: [usize; 2]) -> (r: &T)
        ensures
            *r == self.elems()[index[0] * self.ncols() + index[1]],
    {
        let n = self.data.len();
        proof {
            assert(index[0] * self.ncolumns + index[1] < n);
        }
        &self.data[index[0] * self.ncolumns + index[1]]
    }
}

impl<'a, T> vstd::std_specs::core::IndexSpecImpl<[usize; 2]> for MatrixViewMut<'a, T> {
    open spec fn index_req(&self, index: &[usize; 2]) -> bool {
        index[0] * self.ncols() + index[1] < self.elems().len()
    }
}

impl<'a, T> Matrix<T> for MatrixViewMut<'a, T> {
    closed spec fn elems(&self) -> Seq<T> {
        self.data@
    }

    closed spec fn nrows(&self) -> nat {
        self.data@.len() / (self.ncolumns as nat)
    }

    closed spec fn ncols(&self) -> nat {
        self.ncolumns as nat
    }

    closed spec fn has_shape(&self) -> bool {
        self.ncolumns > 0
    }

    fn shape(&self) -> (s: [usize; 2]) {
        proof {
            vstd::arithmetic::div_mod::lemma_fundamental_div_mod(self.data@.len() as int, self.ncolumns as int);
            vstd::arithmetic::mul::lemma_mul_is_commutative(self.ncolumns as int, (self.data@.len() / (self.ncolumns as nat)) as int);
        }
        let nr = self.data.len() / self.ncolumns;
        let s = [nr, self.ncolumns];
        assert(s[0] == nr && s[1] == self.ncolumns);
        assert(nr == self.nrows());
        assert(self.nrows() * self.ncols() <= self.elems().len());
        s
    }

    fn data(&self) -> (d: &[T]) {
        &*self.data
    }
}

impl<'a, T> MatrixMut<T> for MatrixViewMut<'a, T> {
    fn data_mut(&mut self) -> (d: &mut [T]) {
        &mut *self.data
    }
}

/// The entries of `a` row after row: entry `q` is `a[q / NC][q % NC]`.
pub open spec fn flat_rows<T, const NR: usize, const NC: usize>(a: [[T; NC]; NR]) -> Seq<T> {
    Seq::new((NR * NC) as nat, |q: int| a@[q / (NC as int)]@[q % (NC as int)])
}

/// `as_flattened` of std on the rows of `a`: the documentation of std says it
/// views the array of rows as one slice of their entries, row after row; that is
/// all this claims.
#[verifier::external_body]
fn flatten_rows<T, const NR: usize, const NC: usize>(a: &[[T; NC]; NR]) -> (r: &[T])
    ensures
        r@ == flat_rows(*a),
{
    a.as_flattened()
}

/// `as_flattened_mut` of std on the rows of `a`: by its documentation, the same
/// entries as one mutable slice, so that what is written through the slice is
/// what the rows hold afterwards; that is all this claims.
#[verifier::external_body]
fn flatten_rows_mut<T, const NR: usize, const NC: usize>(a: &mut [[T; NC]; NR]) -> (r: &mut [T])
    ensures
        r@ == flat_rows(*old(a)),
        flat_rows(*final(a)) == final(r)@,
{
    a.as_flattened_mut()
}

impl<T, const NR: usize, const NC: usize> Matrix<T> for StaticMatrix<T, NR, NC> {
    closed spec fn elems(&self) -> Seq<T> {
        flat_rows(self.data)
    }

    closed spec fn nrows(&self) -> nat {
        NR as nat
    }

    closed spec fn ncols(&self) -> nat {
        NC as nat
    }

    closed spec fn has_shape(&self) -> bool {
        true
    }

    fn shape(&self) -> (s: [usize; 2]) {
        let s = [NR, NC];
        assert(s[0] == NR && s[1] == NC);
        assert(self.nrows() == NR);
        assert(self.elems().len() == NR * NC);
        s
    }

    fn data(&self) -> (d: &[T]) {
        flatten_rows(&self.data)
    }
}

impl<T, const NR: usize, const NC: usize> MatrixMut<T> for StaticMatrix<T, NR, NC> {
    fn data_mut(&mut self) -> (d: &mut [T]) {
        flatten_rows_mut(&mut self.data)
    }
}

impl<T, const NR: usize, const NC: usize> core::ops::Index<[usize; 2]> for StaticMatrix<T, NR, NC> {
    type Output = T;

    fn index(&self, index: [usize; 2]) -> (r: &T)
        ensures
            *r == self.elems()[index[0] * self.ncols() + index[1]],
    {
        proof {
            let q = index[0] * NC + index[1];
            vstd::arithmetic::div_mod::lemma_fundamental_div_mod_converse(q, NC as int, index[0] as int, index[1] as int);
            vstd::arithmetic::mul::lemma_mul_inequality(index[0] + 1, NR as int, NC as int);
            vstd::arithmetic::mul::lemma_mul_is_distributive_add_other_way(NC as int, index[0] as int, 1);
        }
        &self.data[index[0]][index[1]]
    }
}

impl<T, const NR: usize, const NC: usize> StaticMatrix<T, NR, NC> {
    /// Writes `value` at `(index[0], index[1])`, the assignment `m[index] = value`.
    pub fn set(&mut self, index: [usize; 2], value: T)
        requires
            index[0] < NR,
            index[1] < NC,
        ensures
            final(self).elems() == old(self).elems().update(index[0] * NC + index[1], value),
    {
        let i = index[0];
        let j = index[1];
        self.data[i][j] = value;
        proof {
            let q = i * NC + j;
            vstd::arithmetic::div_mod::lemma_fundamental_div_mod_converse(q, NC as int, i as int, j as int);
            vstd::arithmetic::mul::lemma_mul_inequality(i + 1, NR as int, NC as int);
            vstd::arithmetic::mul::lemma_mul_is_distributive_add_other_way(NC as int, i as int, 1);
            assert(self.data@[i as int]@ == old(self).data@[i as int]@.update(j as int, value));
            assert forall|p: int| 0 <= p < NR * NC implies #[trigger] self.elems()[p] == old(self).elems().update(q, value)[p] by {
                crate::linalg::factorize::lu::lemma_rc(p, NC as int);
                let a = p / (NC as int);
                let b = p % (NC as int);
                assert(a < NR) by (nonlinear_arith)
                    requires
                        p == a * NC + b,
                        0 <= b,
                        p < NR * NC,
                ;
                if a == i && b == j {
                    assert(p == q);
                } else {
                    if p == q {
                        lemma_row_major_unique(a, b, i as int, j as int, NC as int);
                    }
                    if a != i {
                        assert(self.data@[a] == old(self).data@[a]);
                    }
                }
            }
            assert(self.elems() =~= old(self).elems().update(q, value));
        }
    }
}

impl<T, const NR: usize, const NC: usize> vstd::std_specs::core::IndexSpecImpl<[usize; 2]> for StaticMatrix<T, NR, NC> {
    open spec fn index_req(&self, index: &[usize; 2]) -> bool {
        index[0] < NR && index[1] < NC
    }
}

} // verus!

