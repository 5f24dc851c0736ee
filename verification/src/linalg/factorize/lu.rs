//! LU factorization with partial (row) pivoting, for dense square matrices.
use vstd::prelude::*;

use crate::linalg::factorize::MatrixFactorization;
use crate::linalg::matrix::{lemma_row_major_index, DynamicMatrix, Matrix, MatrixMut};
use crate::linalg::vector::{Vector, VectorMut};
use crate::linalg::Error;
use crate::num_traits::FloatNumber;

verus! {

/// `acc - x[0] y[0] - x[1] y[1] - ...`, subtracted from the left.
pub open spec fn sub_products<T: FloatNumber>(acc: T, xs: Seq<T>, ys: Seq<T>) -> T
    decreases xs.len(),
{
    if xs.len() == 0 {
        acc
    } else {
        sub_products(acc, xs.drop_last(), ys).sub_spec(xs.last().mul_spec(ys[xs.len() - 1]))
    }
}

/// Forward substitution with the unit lower triangle stored strictly below the
/// diagonal of the `n` by `n` row-major `lu`, on the right-hand side `rhs`:
/// the first `m` entries of the intermediate solution.
pub open spec fn forward_seq<T: FloatNumber>(lu: Seq<T>, n: nat, rhs: Seq<T>, m: nat) -> Seq<T>
    decreases m,
{
    if m == 0 {
        Seq::empty()
    } else {
        let y = forward_seq(lu, n, rhs, (m - 1) as nat);
        let i = m - 1;
        y.push(sub_products(rhs[i], lu.subrange(i * n, i * n + i), y))
    }
}

/// Back substitution with the upper triangle (diagonal included) of the `n` by
/// `n` row-major `lu`, on the intermediate solution `y`: the last `m` entries of
/// the solution.
pub open spec fn backward_seq<T: FloatNumber>(lu: Seq<T>, n: nat, y: Seq<T>, m: nat) -> Seq<T>
    decreases m,
{
    if m == 0 || m > n {
        Seq::empty()
    } else {
        let z = backward_seq(lu, n, y, (m - 1) as nat);
        let i = n - m;
        seq![sub_products(y[i], lu.subrange(i * n + i + 1, i * n + n), z).div_spec(lu[i * n + i])] + z
    }
}

proof fn lemma_backward_len<T: FloatNumber>(lu: Seq<T>, n: nat, y: Seq<T>, m: nat)
    requires
        m <= n,
    ensures
        backward_seq(lu, n, y, m).len() == m,
    decreases m,
{
    if m > 0 {
        lemma_backward_len(lu, n, y, (m - 1) as nat);
    }
}

/// The solution of `lu` (factorized with permutation `p`) for the right-hand side `b`.
pub open spec fn lu_solution<T: FloatNumber>(lu: Seq<T>, n: nat, p: Seq<usize>, b: Seq<T>) -> Seq<T> {
    let rhs = Seq::new(n, |i: int| b[p[i] as int]);
    backward_seq(lu, n, forward_seq(lu, n, rhs, n), n)
}

pub struct DynamicLu<T> {
    pub lu: DynamicMatrix<T>,
    pub p: Vec<usize>,
}

impl<T> DynamicLu<T> {
    /// Size of the factorization: the columns of `lu`.
    pub open spec fn size(&self) -> nat {
        self.lu.ncols()
    }

    /// `lu` is square of size `size()`, `p` holds one row index below `size()`
    /// for each row plus one extra slot.
    pub open spec fn shapes_valid(&self) -> bool {
        &&& self.lu.has_shape()
        &&& self.lu.elems().len() == self.size() * self.size()
        &&& self.lu.nrows() == self.size()
        &&& self.p@.len() == self.size() + 1
        &&& forall|i: int| 0 <= i < self.size() ==> #[trigger] self.p@[i] < self.size()
    }
}

impl<T> MatrixFactorization<T> for DynamicLu<T> where T: FloatNumber {
    open spec fn dim(&self) -> nat {
        self.size()
    }

    open spec fn solvable(&self) -> bool {
        self.shapes_valid()
    }

    open spec fn solution_for(&self, b: Seq<T>) -> Seq<T> {
        lu_solution(self.lu.elems(), self.dim(), self.p@, b)
    }

    open spec fn pending(&self) -> Seq<T> {
        self.lu.elems()
    }

    /// The solution for `b` with the partial pivoting factorization of `m`.
    open spec fn solution_with(&self, m: Seq<T>, b: Seq<T>) -> Seq<T> {
        let res = plu_steps(m, initial_perm(self.dim()), self.dim(), self.dim());
        lu_solution(res.0, self.dim(), res.1, b)
    }

    /// Singular exactly when the partial pivoting of `m` meets a pivot smaller than EPSILON.
    open spec fn factorize_outcome(&self, m: Seq<T>) -> Result<(), Error> {
        if plu_steps(m, initial_perm(self.dim()), self.dim(), self.dim()).2 {
            Err(Error::ErrorSingularMatrix)
        } else {
            Ok(())
        }
    }

    fn allocate(size: usize) -> (f: Self) {
        let lu = DynamicMatrix::new(T::float_from_i32(0), [size, size]);
        let mut p = Vec::new();
        let mut i: usize = 0;
        while i < size + 1
            invariant
                size < usize::MAX,
                i <= size + 1,
                p@.len() == i,
                forall|k: int| 0 <= k < i ==> #[trigger] p@[k] == 0,
            decreases size + 1 - i,
        {
            p.push(0);
            i = i + 1;
        }
        Self { lu, p }
    }

    fn set_matrix<M>(&mut self, matrix: &M) -> (r: Result<(), Error>) where M: Matrix<T>
        ensures
            r is Ok ==> forall|i: int, j: int|
                0 <= i < old(self).dim() && 0 <= j < old(self).dim() ==> #[trigger] final(self).lu.elems()[i
                    * old(self).dim() + j] == matrix.elems()[i * matrix.ncols() + j],
            r is Err ==> final(self).lu.elems() == old(self).lu.elems(),
            final(self).p@ == old(self).p@,
    {
        let ms = matrix.shape();
        let ls = self.lu.shape();
        let n = ms[0];
        if ms[0] != ls[0] {
            return Err(Error::ErrorSizeInvalid);
        }
        if ms[1] != ls[1] {
            return Err(Error::ErrorSizeInvalid);
        }
        let md = matrix.data();
        let mlen = md.len();
        let ghost nn = n as nat;
        proof {
            assert(nn * nn <= self.lu.elems().len());
            assert(nn * nn <= md@.len());
        }
        let mut i: usize = 0;
        while i < n
            invariant
                n == nn,
                n == ms[0],
                ms[1] == n,
                ls[1] == n,
                md@ == matrix.elems(),
                matrix.ncols() == n,
                self.lu.ncols() == n,
                self.lu.nrows() == n,
                self.lu.has_shape(),
                nn * nn <= self.lu.elems().len(),
                nn * nn <= md@.len(),
                mlen == md@.len(),
                self.lu.elems().len() == old(self).lu.elems().len(),
                self.p@ == old(self).p@,
                self.shapes_valid(),
                i <= n,
                forall|a: int, b: int|
                    0 <= a < i && 0 <= b < n ==> #[trigger] self.lu.elems()[a * n + b] == md@[a * n + b],
            decreases n - i,
        {
            let mut j: usize = 0;
            while j < n
                invariant
                    n == nn,
                    md@ == matrix.elems(),
                    matrix.ncols() == n,
                    self.lu.ncols() == n,
                    self.lu.nrows() == n,
                    self.lu.has_shape(),
                    nn * nn <= self.lu.elems().len(),
                    nn * nn <= md@.len(),
                    mlen == md@.len(),
                    self.lu.elems().len() == old(self).lu.elems().len(),
                    self.p@ == old(self).p@,
                    self.shapes_valid(),
                    i < n,
                    j <= n,
                    forall|a: int, b: int|
                        (0 <= a < i && 0 <= b < n) || (a == i && 0 <= b < j) ==> #[trigger] self.lu.elems()[a * n + b] == md@[a * n + b],
                decreases n - j,
            {
                proof {
                    lemma_row_major_index(i as int, j as int, n as int, n as int);
                }
                let v = md[i * n + j];
                let ghost before = self.lu.elems();
                self.lu.set([i, j], v);
                proof {
                    assert forall|a: int, b: int|
                        (0 <= a < i && 0 <= b < n) || (a == i && 0 <= b < j + 1) implies #[trigger] self.lu.elems()[a * n + b] == md@[a * n + b] by {
                        lemma_row_major_index(a, b, n as int, n as int);
                        if a * n + b == i * n + j {
                            crate::linalg::matrix::lemma_row_major_unique(a, b, i as int, j as int, n as int);
                        }
                    }
                }
                j = j + 1;
            }
            i = i + 1;
        }
        proof {
            if md@.len() == nn * nn {
                assert forall|q: int| 0 <= q < nn * nn implies #[trigger] self.lu.elems()[q] == md@[q] by {
                    lemma_rc(q, n as int);
                    let a = q / (n as int);
                    let b = q % (n as int);
                    assert(a < n) by (nonlinear_arith)
                        requires
                            q == a * n + b,
                            0 <= b,
                            q < n * n,
                            n > 0,
                    ;
                    assert(self.lu.elems()[a * n + b] == md@[a * n + b]);
                }
                assert(self.lu.elems() =~= md@);
            }
        }
        Ok(())
    }

    fn factorize(&mut self) -> (r: Result<(), Error>)
        ensures
            ({
                let n = old(self).dim();
                let res = plu_steps(old(self).lu.elems(), initial_perm(n), n, n);
                &&& final(self).lu.elems() == res.0
                &&& final(self).p@ == res.1
                &&& (r is Ok <==> !res.2)
                &&& (r is Err ==> r == Err::<(), Error>(Error::ErrorSingularMatrix))
                &&& is_counted_perm(final(self).p@, n, n)
            }),
    {
        proof {
            lemma_plu_steps_len(self.lu.elems(), initial_perm(self.dim()), self.dim(), self.dim());
        }
        match plu_decompose(&mut self.lu, &mut self.p) {
            Ok(_) => Ok(()),
            Err(e) => Err(e),
        }
    }

    fn solve<X, B>(&self, x: &mut X, b: &B) where X: VectorMut<T>, B: Vector<T>
        ensures
            final(x).elems() == lu_solution(self.lu.elems(), self.dim(), self.p@, b.elems()),
    {
        plu_solve(x, b, &self.lu, self.p.as_slice());
    }
}

/// Solves `lu x = b` permuted by `p`: forward substitution with the unit lower
/// triangle on `b[p[i]]`, then back substitution with the upper triangle.
fn plu_solve<T, X, B>(x: &mut X, b: &B, lu: &DynamicMatrix<T>, p: &[usize]) where
    T: FloatNumber,
    X: VectorMut<T>,
    B: Vector<T>,

    requires
        lu.has_shape(),
        lu.nrows() == lu.ncols(),
        p@.len() >= lu.ncols(),
        forall|i: int| 0 <= i < lu.ncols() ==> #[trigger] p@[i] < lu.ncols(),
        old(x).elems().len() == lu.ncols(),
        b.elems().len() == lu.ncols(),
    ensures
        final(x).elems() == lu_solution(lu.elems(), lu.ncols(), p@, b.elems()),
        final(x).elems().len() == old(x).elems().len(),
{
    let _s = lu.shape();
    let bd = b.data();
    let d = x.data_mut();
    let n = d.len();
    let ghost nn = n as nat;
    let ghost a = lu.elems();
    let ghost rhs = Seq::new(nn, |i: int| bd@[p@[i] as int]);
    proof {
        assert(nn * nn <= a.len());
    }
    let mut i: usize = 0;
    while i < n
        invariant
            n == nn,
            nn == lu.ncols(),
            nn == lu.nrows(),
            nn * nn <= a.len(),
            a == lu.elems(),
            bd@ == b.elems(),
            bd@.len() == n,
            p@.len() >= n,
            forall|q: int| 0 <= q < n ==> #[trigger] p@[q] < n,
            rhs == Seq::new(nn, |q: int| bd@[p@[q] as int]),
            d@.len() == n,
            i <= n,
            d@.take(i as int) == forward_seq(a, nn, rhs, i as nat),
        decreases n - i,
    {
        proof {
            lemma_row_major_index(i as int, n - 1, n as int, n as int);
        }
        let ghost y = d@.take(i as int);
        let ghost row = a.subrange(i * nn, i * nn + i);
        d[i] = bd[p[i]];
        let mut k: usize = 0;
        while k < i
            invariant
                n == nn,
                nn == lu.ncols(),
                nn == lu.nrows(),
                nn * nn <= a.len(),
                a == lu.elems(),
                i < n,
                i * nn + nn <= nn * nn,
                k <= i,
                d@.len() == n,
                y == d@.take(i as int),
                row == a.subrange(i * nn, i * nn + i),
                d@[i as int] == sub_products(rhs[i as int], row.take(k as int), y),
            decreases i - k,
        {
            proof {
                lemma_row_major_index(i as int, k as int, n as int, n as int);
                assert(row.take(k + 1).drop_last() =~= row.take(k as int));
                assert(row.take(k + 1).last() == a[i * nn + k]);
                assert(d@[k as int] == y[k as int]);
            }
            let v = lu.get([i, k]).float_mul(d[k]);
            d[i] = d[i].float_sub(v);
            proof {
                assert(d@.take(i as int) =~= y);
            }
            k = k + 1;
        }
        proof {
            assert(row.take(i as int) =~= row);
            assert(d@.take(i + 1) =~= forward_seq(a, nn, rhs, (i + 1) as nat));
        }
        i = i + 1;
    }
    let ghost y = d@;
    proof {
        assert(y =~= forward_seq(a, nn, rhs, nn));
    }
    let mut i: usize = n;
    while i > 0
        invariant
            n == nn,
            nn == lu.ncols(),
            nn == lu.nrows(),
            nn * nn <= a.len(),
            a == lu.elems(),
            y.len() == n,
            d@.len() == n,
            i <= n,
            d@.subrange(i as int, n as int) == backward_seq(a, nn, y, (n - i) as nat),
            forall|q: int| 0 <= q < i ==> #[trigger] d@[q] == y[q],
        decreases i,
    {
        i = i - 1;
        proof {
            lemma_row_major_index(i as int, n - 1, n as int, n as int);
        }
        let ghost z = d@.subrange(i + 1, n as int);
        let ghost row = a.subrange(i * nn + i + 1, i * nn + nn);
        let mut k: usize = i + 1;
        while k < n
            invariant
                n == nn,
                nn == lu.ncols(),
                nn == lu.nrows(),
                nn * nn <= a.len(),
                a == lu.elems(),
                i < n,
                i * nn + nn <= nn * nn,
                i + 1 <= k <= n,
                d@.len() == n,
                z == d@.subrange(i + 1, n as int),
                row == a.subrange(i * nn + i + 1, i * nn + nn),
                forall|q: int| 0 <= q < i ==> #[trigger] d@[q] == y[q],
                d@[i as int] == sub_products(y[i as int], row.take(k - i - 1), z),
            decreases n - k,
        {
            proof {
                lemma_row_major_index(i as int, k as int, n as int, n as int);
                assert(row.take(k - i).drop_last() =~= row.take(k - i - 1));
                assert(row.take(k - i).last() == a[i * nn + k]);
                assert(d@[k as int] == z[k - i - 1]);
            }
            let v = lu.get([i, k]).float_mul(d[k]);
            d[i] = d[i].float_sub(v);
            proof {
                assert(d@.subrange(i + 1, n as int) =~= z);
            }
            k = k + 1;
        }
        proof {
            lemma_row_major_index(i as int, i as int, n as int, n as int);
            assert(row.take(n - i - 1) =~= row);
        }
        d[i] = d[i].float_div(lu.get([i, i]));
        proof {
            assert(d@.subrange(i + 1, n as int) =~= z);
            assert(d@.subrange(i as int, n as int) =~= backward_seq(a, nn, y, (n - i) as nat));
        }
    }
    proof {
        assert(d@ =~= d@.subrange(0, n as int));
    }
}

/// Scan of column `i` for a pivot over rows `k..n`, from the running maximum
/// `m` held by row `r`: a row takes over only when its magnitude is strictly
/// larger. Gives the final maximum and its row.
pub open spec fn pivot_scan<T: FloatNumber>(a: Seq<T>, n: nat, i: int, k: int, m: T, r: int) -> (T, int)
    decreases n - k,
{
    if k >= n {
        (m, r)
    } else {
        let absa = a[k * n + i].abs_spec();
        if m.lt_spec(absa) {
            pivot_scan(a, n, i, k + 1, absa, k)
        } else {
            pivot_scan(a, n, i, k + 1, m, r)
        }
    }
}

/// `a` (row-major, `n` columns) with rows `i` and `r` exchanged.
pub open spec fn swap_rows<T>(a: Seq<T>, n: nat, i: int, r: int) -> Seq<T> {
    Seq::new(
        a.len(),
        |q: int|
            if q / (n as int) == i {
                a[r * n + q % (n as int)]
            } else if q / (n as int) == r {
                a[i * n + q % (n as int)]
            } else {
                a[q]
            },
    )
}

/// One step of Gaussian elimination on column `i` of the `n` by `n` row-major
/// `a`: each row `j` below `i` gets its multiplier `a[j][i] / a[i][i]` stored in
/// column `i`, and loses that multiple of row `i` in the columns after `i`.
pub open spec fn eliminate<T: FloatNumber>(a: Seq<T>, n: nat, i: int) -> Seq<T> {
    Seq::new(
        a.len(),
        |q: int|
            {
                let j = q / (n as int);
                let k = q % (n as int);
                if i < j < n && k == i {
                    a[q].div_spec(a[i * n + i])
                } else if i < j < n && k > i {
                    a[q].sub_spec(a[j * n + i].div_spec(a[i * n + i]).mul_spec(a[i * n + k]))
                } else {
                    a[q]
                }
            },
    )
}

/// The identity permutation of `0..n`, followed by the swap counter `n`.
pub open spec fn initial_perm(n: nat) -> Seq<usize> {
    Seq::new(n + 1, |k: int| k as usize)
}

/// Matrix and permutation after the first `s` steps of the decomposition, and
/// whether a step met a pivot smaller than EPSILON (no step runs after that one).
/// A step picks the pivot row of column `i`, exchanges it with row `i` (in the
/// matrix and in the permutation, counting the exchange in `p[n]`) and eliminates.
pub open spec fn plu_steps<T: FloatNumber>(a: Seq<T>, p: Seq<usize>, n: nat, s: nat) -> (Seq<T>, Seq<usize>, bool)
    decreases s,
{
    if s == 0 {
        (a, p, false)
    } else {
        let prev = plu_steps(a, p, n, (s - 1) as nat);
        let a1 = prev.0;
        let p1 = prev.1;
        let i = s - 1;
        if prev.2 {
            prev
        } else {
            let piv = pivot_scan(a1, n, i, i, T::from_i32_spec(0), i);
            let r = piv.1;
            if piv.0.lt_spec(T::epsilon_spec()) {
                (a1, p1, true)
            } else if r != i {
                (
                    eliminate(swap_rows(a1, n, i, r), n, i),
                    p1.update(i, p1[r]).update(r, p1[i]).update(n as int, (p1[n as int] + 1) as usize),
                    false,
                )
            } else {
                (eliminate(a1, n, i), p1, false)
            }
        }
    }
}

/// The elimination keeps the length of the matrix.
pub proof fn lemma_plu_steps_len<T: FloatNumber>(a: Seq<T>, p: Seq<usize>, n: nat, s: nat)
    ensures
        plu_steps(a, p, n, s).0.len() == a.len(),
    decreases s,
{
    if s > 0 {
        lemma_plu_steps_len(a, p, n, (s - 1) as nat);
    }
}

/// `q` splits into a row `q / n` and a column `q % n`.
pub proof fn lemma_rc(q: int, n: int)
    requires
        0 <= q,
        0 < n,
    ensures
        q == (q / n) * n + q % n,
        0 <= q % n < n,
        0 <= q / n,
{
    vstd::arithmetic::div_mod::lemma_fundamental_div_mod(q, n);
    vstd::arithmetic::mul::lemma_mul_is_commutative(q / n, n);
    vstd::arithmetic::div_mod::lemma_div_pos_is_pos(q, n);
}

/// Finds the pivot row of column `i`: the first row from `i` on of strictly
/// largest magnitude, starting from a maximum of 0 held by row `i`.
fn find_pivot<T: FloatNumber>(a: &DynamicMatrix<T>, n: usize, i: usize) -> (res: (T, usize))
    requires
        a.has_shape(),
        a.ncols() == n,
        a.nrows() == n,
        i < n,
    ensures
        res.0 == pivot_scan(a.elems(), n as nat, i as int, i as int, T::from_i32_spec(0), i as int).0,
        res.1 == pivot_scan(a.elems(), n as nat, i as int, i as int, T::from_i32_spec(0), i as int).1,
        i <= res.1 < n,
{
    let _s = a.shape();
    let ghost e = a.elems();
    let mut maxa = T::float_from_i32(0);
    let mut imax = i;
    let mut k = i;
    while k < n
        invariant
            a.has_shape(),
            a.ncols() == n,
            a.nrows() == n,
            e == a.elems(),
            (n as nat) * (n as nat) <= e.len(),
            i < n,
            i <= k <= n,
            i <= imax < n,
            pivot_scan(e, n as nat, i as int, k as int, maxa, imax as int)
                == pivot_scan(e, n as nat, i as int, i as int, T::from_i32_spec(0), i as int),
        decreases n - k,
    {
        proof {
            lemma_row_major_index(k as int, i as int, n as int, n as int);
        }
        let absa = a.get([k, i]).float_abs();
        if maxa.float_lt(absa) {
            maxa = absa;
            imax = k;
        }
        k = k + 1;
    }
    (maxa, imax)
}

/// Exchanges rows `i` and `r` in place.
fn swap_rows_in_place<T: Copy>(a: &mut DynamicMatrix<T>, n: usize, i: usize, r: usize)
    requires
        old(a).has_shape(),
        old(a).ncols() == n,
        old(a).nrows() == n,
        i < n,
        r < n,
        i != r,
    ensures
        final(a).has_shape(),
        final(a).ncols() == n,
        final(a).nrows() == n,
        final(a).elems() == swap_rows(old(a).elems(), n as nat, i as int, r as int),
{
    let _s = a.shape();
    let ghost e = a.elems();
    let ghost nn = n as nat;
    let mut j: usize = 0;
    while j < n
        invariant
            a.has_shape(),
            a.ncols() == n,
            a.nrows() == n,
            nn == n,
            nn * nn <= e.len(),
            a.elems().len() == e.len(),
            i < n,
            r < n,
            i != r,
            j <= n,
            forall|row: int, col: int|
                0 <= row < n && 0 <= col < n ==> #[trigger] a.elems()[row * nn + col] == if row == i && col < j {
                    e[r * nn + col]
                } else if row == r && col < j {
                    e[i * nn + col]
                } else {
                    e[row * nn + col]
                },
            forall|q: int| nn * nn <= q < e.len() ==> #[trigger] a.elems()[q] == e[q],
        decreases n - j,
    {
        proof {
            lemma_row_major_index(i as int, j as int, n as int, n as int);
            lemma_row_major_index(r as int, j as int, n as int, n as int);
        }
        let atmp = a.get([i, j]);
        let arj = a.get([r, j]);
        a.set([i, j], arj);
        a.set([r, j], atmp);
        proof {
            assert forall|row: int, col: int|
                0 <= row < n && 0 <= col < n implies #[trigger] a.elems()[row * nn + col] == if row == i && col < j + 1 {
                    e[r * nn + col]
                } else if row == r && col < j + 1 {
                    e[i * nn + col]
                } else {
                    e[row * nn + col]
                } by {
                lemma_row_major_index(row, col, n as int, n as int);
                if row * nn + col == i * nn + j {
                    crate::linalg::matrix::lemma_row_major_unique(row, col, i as int, j as int, n as int);
                }
                if row * nn + col == r * nn + j {
                    crate::linalg::matrix::lemma_row_major_unique(row, col, r as int, j as int, n as int);
                }
            }
            assert forall|q: int| nn * nn <= q < e.len() implies #[trigger] a.elems()[q] == e[q] by {
                lemma_row_major_index(i as int, j as int, n as int, n as int);
                lemma_row_major_index(r as int, j as int, n as int, n as int);
            }
        }
        j = j + 1;
    }
    proof {
        let sw = swap_rows(e, nn, i as int, r as int);
        assert forall|q: int| 0 <= q < e.len() implies #[trigger] a.elems()[q] == sw[q] by {
            lemma_rc(q, n as int);
            let row = q / (n as int);
            let col = q % (n as int);
            if q < nn * nn {
                if row >= n {
                    vstd::arithmetic::mul::lemma_mul_inequality(n as int, row, n as int);
                }
                assert(a.elems()[row * nn + col] == sw[q]);
            } else {
                if row < n {
                    lemma_row_major_index(row, col, n as int, n as int);
                }
            }
        }
        assert(a.elems() =~= sw);
    }
}

/// Entry `(j, k)` of `eliminate(a, n, i)`.
pub open spec fn elim_entry<T: FloatNumber>(a: Seq<T>, n: nat, i: int, j: int, k: int) -> T {
    if i < j < n && k == i {
        a[j * n + k].div_spec(a[i * n + i])
    } else if i < j < n && k > i {
        a[j * n + k].sub_spec(a[j * n + i].div_spec(a[i * n + i]).mul_spec(a[i * n + k]))
    } else {
        a[j * n + k]
    }
}

/// Eliminates column `i` below the diagonal, in place.
fn eliminate_below<T: FloatNumber>(a: &mut DynamicMatrix<T>, n: usize, i: usize)
    requires
        old(a).has_shape(),
        old(a).ncols() == n,
        old(a).nrows() == n,
        i < n,
    ensures
        final(a).has_shape(),
        final(a).ncols() == n,
        final(a).nrows() == n,
        final(a).elems() == eliminate(old(a).elems(), n as nat, i as int),
{
    let _s = a.shape();
    let ghost e = a.elems();
    let ghost nn = n as nat;
    let mut j = i + 1;
    while j < n
        invariant
            a.has_shape(),
            a.ncols() == n,
            a.nrows() == n,
            nn == n,
            nn * nn <= e.len(),
            a.elems().len() == e.len(),
            i < n,
            i + 1 <= j <= n,
            forall|row: int, col: int|
                0 <= row < n && 0 <= col < n ==> #[trigger] a.elems()[row * nn + col] == if i < row < j {
                    elim_entry(e, nn, i as int, row, col)
                } else {
                    e[row * nn + col]
                },
            forall|q: int| nn * nn <= q < e.len() ==> #[trigger] a.elems()[q] == e[q],
        decreases n - j,
    {
        proof {
            lemma_row_major_index(i as int, i as int, n as int, n as int);
            lemma_row_major_index(j as int, i as int, n as int, n as int);
        }
        let aii = a.get([i, i]);
        let aji = a.get([j, i]).float_div(aii);
        a.set([j, i], aji);
        proof {
            assert forall|row: int, col: int|
                0 <= row < n && 0 <= col < n implies #[trigger] a.elems()[row * nn + col] == if i < row < j || (row == j && col == i) {
                    elim_entry(e, nn, i as int, row, col)
                } else {
                    e[row * nn + col]
                } by {
                lemma_row_major_index(row, col, n as int, n as int);
                if row * nn + col == j * nn + i {
                    crate::linalg::matrix::lemma_row_major_unique(row, col, j as int, i as int, n as int);
                }
            }
            assert forall|q: int| nn * nn <= q < e.len() implies #[trigger] a.elems()[q] == e[q] by {}
        }
        let mut k = i + 1;
        while k < n
            invariant
                a.has_shape(),
                a.ncols() == n,
                a.nrows() == n,
                nn == n,
                nn * nn <= e.len(),
                a.elems().len() == e.len(),
                i < n,
                i < j < n,
                i + 1 <= k <= n,
                forall|row: int, col: int|
                    0 <= row < n && 0 <= col < n ==> #[trigger] a.elems()[row * nn + col] == if i < row < j || (row == j && (col == i || i < col < k)) {
                        elim_entry(e, nn, i as int, row, col)
                    } else {
                        e[row * nn + col]
                    },
                forall|q: int| nn * nn <= q < e.len() ==> #[trigger] a.elems()[q] == e[q],
            decreases n - k,
        {
            proof {
                lemma_row_major_index(j as int, i as int, n as int, n as int);
                lemma_row_major_index(i as int, k as int, n as int, n as int);
                lemma_row_major_index(j as int, k as int, n as int, n as int);
                assert(a.elems()[j * nn + i] == elim_entry(e, nn, i as int, j as int, i as int));
                assert(a.elems()[i * nn + k] == e[i * nn + k]);
                assert(a.elems()[j * nn + k] == e[j * nn + k]);
            }
            let v = a.get([j, i]).float_mul(a.get([i, k]));
            let ajk = a.get([j, k]).float_sub(v);
            a.set([j, k], ajk);
            proof {
                assert forall|row: int, col: int|
                    0 <= row < n && 0 <= col < n implies #[trigger] a.elems()[row * nn + col] == if i < row < j || (row == j && (col == i || i < col < k + 1)) {
                        elim_entry(e, nn, i as int, row, col)
                    } else {
                        e[row * nn + col]
                    } by {
                    lemma_row_major_index(row, col, n as int, n as int);
                    if row * nn + col == j * nn + k {
                        crate::linalg::matrix::lemma_row_major_unique(row, col, j as int, k as int, n as int);
                    }
                }
                assert forall|q: int| nn * nn <= q < e.len() implies #[trigger] a.elems()[q] == e[q] by {}
            }
            k = k + 1;
        }
        j = j + 1;
    }
    proof {
        let el = eliminate(e, nn, i as int);
        assert forall|q: int| 0 <= q < e.len() implies #[trigger] a.elems()[q] == el[q] by {
            lemma_rc(q, n as int);
            let row = q / (n as int);
            let col = q % (n as int);
            if q < nn * nn {
                if row >= n {
                    vstd::arithmetic::mul::lemma_mul_inequality(n as int, row, n as int);
                }
                assert(a.elems()[row * nn + col] == el[q]);
            } else {
                if row < n {
                    lemma_row_major_index(row, col, n as int, n as int);
                }
            }
        }
        assert(a.elems() =~= el);
    }
}

proof fn lemma_pivot_range<T: FloatNumber>(a: Seq<T>, n: nat, i: int, k: int, m: T, r: int)
    requires
        0 <= i <= r < n,
        i <= k,
    ensures
        i <= pivot_scan(a, n, i, k, m, r).1 < n,
    decreases n - k,
{
    if k < n {
        let absa = a[k * n + i].abs_spec();
        if m.lt_spec(absa) {
            lemma_pivot_range(a, n, i, k + 1, absa, k);
        } else {
            lemma_pivot_range(a, n, i, k + 1, m, r);
        }
    }
}

/// A row permutation of `0..n` in `p[0..n]`, with a swap counter `p[n]`
/// between `n` and `n + s`.
pub open spec fn is_counted_perm(p: Seq<usize>, n: nat, s: nat) -> bool {
    &&& p.len() == n + 1
    &&& forall|k: int| 0 <= k < n ==> #[trigger] p[k] < n
    &&& forall|k1: int, k2: int| 0 <= k1 < n && 0 <= k2 < n && k1 != k2 ==> #[trigger] p[k1] != #[trigger] p[k2]
    &&& n <= p[n as int] <= n + s
}

/// The decomposition only permutes: after any number of steps, `p[0..n]` is a
/// permutation of `0..n`, and `p[n]` counts the row exchanges made.
pub proof fn lemma_plu_steps_perm<T: FloatNumber>(a: Seq<T>, n: nat, s: nat)
    requires
        s <= n,
        n + s <= usize::MAX,
    ensures
        is_counted_perm(plu_steps(a, initial_perm(n), n, s).1, n, s),
        plu_steps(a, initial_perm(n), n, s).0.len() == a.len(),
    decreases s,
{
    if s == 0 {
        let p = initial_perm(n);
        assert forall|k1: int, k2: int| 0 <= k1 < n && 0 <= k2 < n && k1 != k2 implies #[trigger] p[k1] != #[trigger] p[k2] by {
            assert(p[k1] == k1 && p[k2] == k2);
        }
        assert(p[n as int] == n);
    } else {
        lemma_plu_steps_perm(a, n, (s - 1) as nat);
        let prev = plu_steps(a, initial_perm(n), n, (s - 1) as nat);
        let i = s - 1;
        if !prev.2 {
            let piv = pivot_scan(prev.0, n, i, i, T::from_i32_spec(0), i);
            lemma_pivot_range(prev.0, n, i, i, T::from_i32_spec(0), i);
            let r = piv.1;
            if !piv.0.lt_spec(T::epsilon_spec()) && r != i {
                let p1 = prev.1;
                let p2 = p1.update(i, p1[r]).update(r, p1[i]).update(n as int, (p1[n as int] + 1) as usize);
                assert forall|k1: int, k2: int| 0 <= k1 < n && 0 <= k2 < n && k1 != k2 implies #[trigger] p2[k1] != #[trigger] p2[k2] by {
                    let o1 = if k1 == i { r } else if k1 == r { i } else { k1 };
                    let o2 = if k2 == i { r } else if k2 == r { i } else { k2 };
                    assert(p2[k1] == p1[o1]);
                    assert(p2[k2] == p1[o2]);
                }
                assert(eliminate(swap_rows(prev.0, n, i, r), n, i).len() == a.len());
            }
        }
    }
}

/// Once a step has failed, later steps change nothing.
proof fn lemma_plu_steps_stop<T: FloatNumber>(a: Seq<T>, p: Seq<usize>, n: nat, s: nat, t: nat)
    requires
        s <= t,
        plu_steps(a, p, n, s).2,
    ensures
        plu_steps(a, p, n, t) == plu_steps(a, p, n, s),
    decreases t - s,
{
    if s < t {
        lemma_plu_steps_stop(a, p, n, s, (t - 1) as nat);
    }
}

/// Performs the PLU decomposition in place: for each column `i`, picks as pivot
/// the row from `i` on of largest magnitude in column `i`, fails with
/// `ErrorSingularMatrix` when that magnitude is below EPSILON, exchanges the
/// pivot row with row `i` (recording it in `p`), and eliminates below the pivot.
fn plu_decompose<T>(a: &mut DynamicMatrix<T>, p: &mut Vec<usize>) -> (r: Result<(), Error>) where T: FloatNumber
    requires
        old(a).has_shape(),
    ensures
        final(a).ncols() == old(a).ncols(),
        final(a).nrows() == old(a).nrows(),
        final(a).has_shape(),
        final(p)@.len() == old(p)@.len(),
        (old(p)@.len() != old(a).nrows() + 1 || old(a).nrows() != old(a).ncols()) ==> {
            &&& r == Err::<(), Error>(Error::ErrorSizeInvalid)
            &&& final(a).elems() == old(a).elems()
            &&& final(p)@ == old(p)@
        },
        (old(p)@.len() == old(a).nrows() + 1 && old(a).nrows() == old(a).ncols()) ==> {
            let res = plu_steps(old(a).elems(), initial_perm(old(a).ncols()), old(a).ncols(), old(a).ncols());
            &&& final(a).elems() == res.0
            &&& final(p)@ == res.1
            &&& (r is Ok <==> !res.2)
            &&& (r is Err ==> r == Err::<(), Error>(Error::ErrorSingularMatrix))
            &&& is_counted_perm(final(p)@, old(a).ncols(), old(a).ncols())
        },
{
    let tol = T::epsilon();
    let s = a.shape();
    let n = s[0];
    if p.len() == 0 || n != p.len() - 1 {
        return Err(Error::ErrorSizeInvalid);
    }
    if s[0] != s[1] {
        return Err(Error::ErrorSizeInvalid);
    }
    let ghost nn = n as nat;
    let ghost a0 = a.elems();
    let _alen = a.data().len();
    let mut k: usize = 0;
    while k < n
        invariant
            n + 1 == p@.len(),
            k <= n,
            forall|q: int| 0 <= q < k ==> #[trigger] p@[q] == q,
        decreases n - k,
    {
        p.set(k, k);
        k = k + 1;
    }
    p.set(n, n);
    proof {
        assert(p@ =~= initial_perm(nn));
        assert(n * n <= a0.len());
        if n >= 2 {
            vstd::arithmetic::mul::lemma_mul_inequality(2, n as int, n as int);
        }
    }
    let mut i: usize = 0;
    while i < n
        invariant
            a.has_shape(),
            a.ncols() == n,
            a.nrows() == n,
            nn == n,
            nn * nn <= a0.len(),
            tol == T::epsilon_spec(),
            old(a).ncols() == n,
            old(a).nrows() == n,
            a0 == old(a).elems(),
            p@.len() == old(p)@.len(),
            n + n <= usize::MAX,
            i <= n,
            (a.elems(), p@, false) == plu_steps(a0, initial_perm(nn), nn, i as nat),
        decreases n - i,
    {
        proof {
            lemma_plu_steps_perm(a0, nn, i as nat);
            lemma_plu_steps_perm(a0, nn, (i + 1) as nat);
        }
        let piv = find_pivot(a, n, i);
        let maxa = piv.0;
        let imax = piv.1;
        if maxa.float_lt(tol) {
            proof {
                lemma_plu_steps_stop(a0, initial_perm(nn), nn, (i + 1) as nat, nn);
            }
            return Err(Error::ErrorSingularMatrix);
        }
        if imax != i {
            let j = p[i];
            let pm = p[imax];
            p.set(i, pm);
            p.set(imax, j);
            swap_rows_in_place(a, n, i, imax);
            let c = p[n];
            p.set(n, c + 1);
        }
        eliminate_below(a, n, i);
        proof {
            let prev = plu_steps(a0, initial_perm(nn), nn, i as nat);
            assert(p@ =~= plu_steps(a0, initial_perm(nn), nn, (i + 1) as nat).1);
        }
        i = i + 1;
    }
    proof {
        lemma_plu_steps_perm(a0, nn, nn);
    }
    Ok(())
}

} // verus!
