//! Systems of ordinary differential equations `dy/dt = f(t, y)`.
use vstd::prelude::*;

use crate::linalg::matrix::{lemma_row_major_index, lemma_row_major_unique, MatrixMut};
use crate::linalg::vector::{DynamicVector, ScratchVector, Vector, VectorMut};
use crate::num_traits::FloatNumber;
use crate::optimize::root::{fd_columns, fd_jacobian, fd_jacobian_written, fd_step, lemma_fd_columns_err};

verus! {

/// A system `dy/dt = f(t, y)`, its parameters held by the implementing type.
pub trait Ode<T> {
    type Error;

    /// Number of unknowns.
    open spec fn dim(&self) -> nat {
        vstd::pervasive::arbitrary()
    }

    /// `f(y, t)`, or the error met computing it.
    open spec fn f_at(&self, y: Seq<T>, t: T) -> Result<Seq<T>, Self::Error> {
        vstd::pervasive::arbitrary()
    }

    /// Whether `eval_jacobian` writes the forward difference Jacobian of `f_at`, as
    /// the provided one does. True unless an implementation that computes its
    /// Jacobian otherwise says false.
    open spec fn jacobian_is_fd(&self) -> bool {
        true
    }

    fn eval_f(&self, f: &mut impl VectorMut<T>, y: &impl Vector<T>, t: T) -> (r: Result<(), Self::Error>)
        requires
            old(f).elems().len() == self.dim(),
            y.elems().len() == self.dim(),
        ensures
            final(f).elems().len() == old(f).elems().len(),
            match self.f_at(y.elems(), t) {
                Ok(v) => r is Ok && final(f).elems() == v,
                Err(e) => r == Err::<(), Self::Error>(e),
            },
    ;

    fn problem_size(&self) -> (n: usize)
        ensures
            n == self.dim(),
    ;

    // evaluate the problem jacobian
    // jac is in row-first ordering
    // [row_1, row_2, row_3 ...]
    // [a_00, a_01, a_02 ... a_10, a_11, a_12 ...]
    // jac[i*size + j] must be derivative of f[i] over variable j
    // default implementation uses a difference quotient automatic formulation
    fn eval_jacobian(&self, jacobian: &mut impl MatrixMut<T>, solution: &impl Vector<T>, t: T) -> (r: Result<(), Self::Error>) where T: FloatNumber
        requires
            old(jacobian).has_shape(),
            old(jacobian).nrows() == self.dim(),
            old(jacobian).ncols() == self.dim(),
            solution.elems().len() == self.dim(),
        ensures
            final(jacobian).elems().len() == old(jacobian).elems().len(),
            final(jacobian).has_shape(),
            final(jacobian).nrows() == old(jacobian).nrows(),
            final(jacobian).ncols() == old(jacobian).ncols(),
            self.jacobian_is_fd() ==> fd_jacobian_written(
                |z: Seq<T>| self.f_at(z, t),
                solution.elems(),
                self.dim(),
                T::epsilon_spec().sqrt_spec(),
                r,
                final(jacobian).elems(),
            ),
        default_ensures
            fd_jacobian_written(
                |z: Seq<T>| self.f_at(z, t),
                solution.elems(),
                self.dim(),
                T::epsilon_spec().sqrt_spec(),
                r,
                final(jacobian).elems(),
            ),
    {
        let y = solution.data();
        let n = self.problem_size();
        let ghost nn = n as nat;
        let ghost res_at = |z: Seq<T>| self.f_at(z, t);
        let _s = jacobian.shape();

        let mut f = ScratchVector::new(T::float_from_i32(0), n);
        let mut fb = ScratchVector::new(T::float_from_i32(0), n);
        let mut yd = ScratchVector::new(T::float_from_i32(0), n);

        {
            let d = yd.data_mut();
            let mut i: usize = 0;
            while i < n
                invariant
                    n == y@.len(),
                    d@.len() == n,
                    i <= n,
                    forall|k: int| 0 <= k < i ==> #[trigger] d@[k] == y@[k],
                decreases n - i,
            {
                d[i] = y[i];
                i = i + 1;
            }
            proof {
                assert(d@ =~= y@);
            }
        }

        // base f
        match self.eval_f(&mut f, solution, t) {
            Ok(()) => {},
            Err(e) => {
                return Err(e);
            },
        }
        let ghost f0 = f.elems();

        let scale = T::epsilon().float_sqrt();
        let jd = jacobian.data_mut();
        let jlen = jd.len();
        let ghost mut cols: Seq<Seq<T>> = Seq::empty();
        proof {
            assert(nn * nn <= jd@.len());
        }
        let mut i: usize = 0;
        #[verifier::loop_isolation(false)]
        while i < n
            invariant
                n == nn,
                nn == self.dim(),
                y@ == solution.elems(),
                y@.len() == n,
                yd.elems() == y@,
                fb.elems().len() == n,
                f.elems() == f0,
                f0.len() == n,
                self.f_at(y@, t) == Ok::<Seq<T>, Self::Error>(f0),
                scale == T::epsilon_spec().sqrt_spec(),
                nn * nn <= jd@.len(),
                jlen == jd@.len(),
                jd@.len() == old(jacobian).elems().len(),
                res_at == (|z: Seq<T>| self.f_at(z, t)),
                i <= n,
                fd_columns(res_at, y@, f0, nn, scale, i as nat) == Ok::<Seq<Seq<T>>, Self::Error>(cols),
                cols.len() == i,
                forall|c: int, j: int| 0 <= c < i && 0 <= j < n ==> #[trigger] jd@[j * nn + c] == cols[c][j],
            decreases n - i,
        {
            let y0 = y[i];
            let dy = scale.float_max(y0.float_abs().float_mul(scale));
            let d = yd.data_mut();
            d[i] = y0.float_add(dy);
            let ghost pt = y@.update(i as int, y0.add_spec(dy));
            proof {
                assert(yd.elems() =~= pt);
            }
            match self.eval_f(&mut fb, &yd, t) {
                Ok(()) => {},
                Err(e) => {
                    proof {
                        assert(res_at(pt) == self.f_at(pt, t));
                        assert(dy == fd_step(y@[i as int], scale));
                        assert(fd_columns(res_at, y@, f0, nn, scale, (i + 1) as nat) == Err::<Seq<Seq<T>>, Self::Error>(e));
                        lemma_fd_columns_err(res_at, y@, f0, nn, scale, (i + 1) as nat, nn);
                    }
                    return Err(e);
                },
            }
            let ghost fbv = fb.elems();
            let ghost col = Seq::new(nn, |j: int| fbv[j].sub_spec(f0[j]).div_spec(dy));
            let fbd = fb.data();
            let fd = f.data();
            let mut j: usize = 0;
            while j < n
                invariant
                    n == nn,
                    i < n,
                    nn * nn <= jd@.len(),
                    jlen == jd@.len(),
                    jd@.len() == old(jacobian).elems().len(),
                    fbd@ == fbv,
                    fbv.len() == n,
                    fd@ == f0,
                    f0.len() == n,
                    col == Seq::new(nn, |j: int| fbv[j].sub_spec(f0[j]).div_spec(dy)),
                    j <= n,
                    cols.len() == i,
                    forall|c: int, r: int| 0 <= c < i && 0 <= r < n ==> #[trigger] jd@[r * nn + c] == cols[c][r],
                    forall|r: int| 0 <= r < j ==> #[trigger] jd@[r * nn + i] == col[r],
                decreases n - j,
            {
                proof {
                    lemma_row_major_index(j as int, i as int, n as int, n as int);
                }
                let k = j * n + i;
                jd[k] = fbd[j].float_sub(fd[j]).float_div(dy);
                proof {
                    assert forall|c: int, r: int| 0 <= c < i && 0 <= r < n implies #[trigger] jd@[r * nn + c] == cols[c][r] by {
                        lemma_row_major_index(r, c, n as int, n as int);
                        if r * nn + c == k {
                            crate::linalg::matrix::lemma_row_major_unique(r, c, j as int, i as int, n as int);
                        }
                    }
                    assert forall|r: int| 0 <= r < j + 1 implies #[trigger] jd@[r * nn + i] == col[r] by {
                        lemma_row_major_index(r, i as int, n as int, n as int);
                        if r * nn + i == k {
                            crate::linalg::matrix::lemma_row_major_unique(r, i as int, j as int, i as int, n as int);
                        }
                    }
                }
                j = j + 1;
            }
            let d = yd.data_mut();
            d[i] = y0;
            proof {
                assert(yd.elems() =~= y@);
                assert(res_at(pt) == self.f_at(pt, t));
                assert(dy == fd_step(y@[i as int], scale));
                assert(fd_columns(res_at, y@, f0, nn, scale, (i + 1) as nat) == Ok::<Seq<Seq<T>>, Self::Error>(cols.push(col)));
                cols = cols.push(col);
                assert forall|c: int, r: int| 0 <= c < i + 1 && 0 <= r < n implies #[trigger] jd@[r * nn + c] == cols[c][r] by {}
            }
            i = i + 1;
        }
        Ok(())
    }
}

} // verus!
