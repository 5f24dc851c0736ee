//! Newton-Raphson root finding for systems of equations.
use vstd::prelude::*;

use crate::linalg::factorize::lu::DynamicLu;
use crate::linalg::factorize::MatrixFactorization;
use crate::linalg::matrix::{lemma_row_major_index, DynamicMatrix, Matrix, MatrixMut};
use crate::linalg::vector::{DynamicVector, ScratchVector, Vector, VectorMut};
use crate::linalg;
use crate::num_traits::FloatNumber;

verus! {

/// The relative finite difference step: `√EPSILON · 100`.
pub open spec fn fd_scale<T: FloatNumber>() -> T {
    T::epsilon_spec().sqrt_spec().mul_spec(T::from_i32_spec(100))
}

/// The finite difference step for a variable of value `v`: `max(scale, |v| scale)`.
pub open spec fn fd_step<T: FloatNumber>(v: T, scale: T) -> T {
    scale.max_spec(v.abs_spec().mul_spec(scale))
}

/// Columns `0..m` of the finite difference Jacobian of `f` at `y`, given
/// `f0 = f(y)`: column `i` holds `(f(y + dy e_i)[j] - f0[j]) / dy` for `j < n`,
/// with `dy = fd_step(y[i], scale)`. The error of the first failing evaluation otherwise.
pub open spec fn fd_columns<T: FloatNumber, E>(
    f: spec_fn(Seq<T>) -> Result<Seq<T>, E>,
    y: Seq<T>,
    f0: Seq<T>,
    n: nat,
    scale: T,
    m: nat,
) -> Result<Seq<Seq<T>>, E>
    decreases m,
{
    if m == 0 {
        Ok(Seq::empty())
    } else {
        match fd_columns(f, y, f0, n, scale, (m - 1) as nat) {
            Err(e) => Err(e),
            Ok(cols) => {
                let i = m - 1;
                let dy = fd_step(y[i], scale);
                match f(y.update(i, y[i].add_spec(dy))) {
                    Err(e) => Err(e),
                    Ok(fb) => Ok(cols.push(Seq::new(n, |j: int| fb[j].sub_spec(f0[j]).div_spec(dy)))),
                }
            },
        }
    }
}

/// The finite difference Jacobian of `f` at `y`, by columns, over `n` variables.
pub open spec fn fd_jacobian<T: FloatNumber, E>(f: spec_fn(Seq<T>) -> Result<Seq<T>, E>, y: Seq<T>, n: nat, scale: T) -> Result<Seq<Seq<T>>, E> {
    match f(y) {
        Err(e) => Err(e),
        Ok(f0) => fd_columns(f, y, f0, n, scale, n),
    }
}

pub proof fn lemma_fd_columns_err<T: FloatNumber, E>(
    f: spec_fn(Seq<T>) -> Result<Seq<T>, E>,
    y: Seq<T>,
    f0: Seq<T>,
    n: nat,
    scale: T,
    a: nat,
    b: nat,
)
    requires
        a <= b,
        fd_columns(f, y, f0, n, scale, a) is Err,
    ensures
        fd_columns(f, y, f0, n, scale, b) == fd_columns(f, y, f0, n, scale, a),
    decreases b - a,
{
    if a < b {
        lemma_fd_columns_err(f, y, f0, n, scale, a, (b - 1) as nat);
    }
}

/// The forward difference Jacobian of `f` at `y` over `n` variables (steps from
/// `scale`) is what the row-major `m` holds and `r` reports: the error of the
/// first failing evaluation of `f`, else success with entry `(j, i)` the
/// quotient for residual `j` and variable `i`.
pub open spec fn fd_jacobian_written<T: FloatNumber, E>(
    f: spec_fn(Seq<T>) -> Result<Seq<T>, E>,
    y: Seq<T>,
    n: nat,
    scale: T,
    r: Result<(), E>,
    m: Seq<T>,
) -> bool {
    match fd_jacobian(f, y, n, scale) {
        Ok(cols) => r is Ok && forall|i: int, j: int| 0 <= i < n && 0 <= j < n ==> #[trigger] m[j * n + i] == cols[i][j],
        Err(e) => r == Err::<(), E>(e),
    }
}

pub trait RootProblem<T> where T: FloatNumber {
    type Error;

    /// Number of variables.
    open spec fn dim(&self) -> nat {
        vstd::pervasive::arbitrary()
    }

    /// The residual at `x`, or the error met computing it.
    open spec fn residual_at(&self, x: Seq<T>) -> Result<Seq<T>, Self::Error> {
        vstd::pervasive::arbitrary()
    }

    /// Whether `residual` computes `residual_at`. True unless an implementation
    /// says otherwise, which it does only where its residual is a computation it
    /// cannot state (one handed on from a method that its own users implement);
    /// a verified implementation that keeps it true must give `residual_at`.
    open spec fn states_residual(&self) -> bool {
        true
    }

    /// Whether `jacobian` writes the forward difference Jacobian of `residual_at`,
    /// as the provided one does. True unless an implementation that computes its
    /// Jacobian otherwise says false.
    open spec fn jacobian_is_fd(&self) -> bool {
        true
    }

    /// The state that `residual` and `jacobian` need (by default, any).
    open spec fn wf(&self) -> bool {
        true
    }

    // get the number of variables of the problem
    fn size(&self) -> (n: usize)
        ensures
            n == self.dim(),
    ;

    fn residual(&self, residual: &mut impl VectorMut<T>, solution: &impl Vector<T>) -> (r: Result<(), Self::Error>)
        requires
            self.wf(),
            old(residual).elems().len() == self.dim(),
            solution.elems().len() == self.dim(),
        ensures
            final(residual).elems().len() == old(residual).elems().len(),
            self.states_residual() ==> match self.residual_at(solution.elems()) {
                Ok(v) => r is Ok && final(residual).elems() == v,
                Err(e) => r == Err::<(), Self::Error>(e),
            },
    ;

    // by default, implement a finite difference jacobian
    fn jacobian(&self, jacobian: &mut impl MatrixMut<T>, solution: &impl Vector<T>) -> (r: Result<(), Self::Error>)
        requires
            self.wf(),
            old(jacobian).has_shape(),
            old(jacobian).nrows() == self.dim(),
            old(jacobian).ncols() == self.dim(),
            solution.elems().len() == self.dim(),
        ensures
            final(jacobian).elems().len() == old(jacobian).elems().len(),
            final(jacobian).has_shape(),
            final(jacobian).nrows() == old(jacobian).nrows(),
            final(jacobian).ncols() == old(jacobian).ncols(),
            self.jacobian_is_fd() && self.states_residual() ==> fd_jacobian_written(
                |z: Seq<T>| self.residual_at(z),
                solution.elems(),
                self.dim(),
                fd_scale::<T>(),
                r,
                final(jacobian).elems(),
            ),
        default_ensures
            self.states_residual() ==> fd_jacobian_written(
                |z: Seq<T>| self.residual_at(z),
                solution.elems(),
                self.dim(),
                fd_scale::<T>(),
                r,
                final(jacobian).elems(),
            ),
    {
        let y = solution.data();
        let n = self.size();
        let ghost nn = n as nat;
        let ghost res_at = |z: Seq<T>| self.residual_at(z);
        let _s = jacobian.shape();

        let mut f = ScratchVector::new(T::float_from_i32(0), n);
        let mut fb = ScratchVector::new(T::float_from_i32(0), n);
        let mut yd = ScratchVector::new(T::float_from_i32(0), n);

        {
            let d = yd.data_mut();
            let mut i: usize = 0;
            while i < n
                invariant
                    n == y@.len(),
                    d@.len() == n,
                    i <= n,
                    forall|k: int| 0 <= k < i ==> #[trigger] d@[k] == y@[k],
                decreases n - i,
            {
                d[i] = y[i];
                i = i + 1;
            }
            proof {
                assert(d@ =~= y@);
            }
        }

        // base f
        match self.residual(&mut f, solution) {
            Ok(()) => {},
            Err(e) => {
                return Err(e);
            },
        }
        let ghost f0 = f.elems();

        let scale = T::epsilon().float_sqrt().float_mul(T::float_from_i32(100));
        let jd = jacobian.data_mut();
        let jlen = jd.len();
        let ghost mut cols: Seq<Seq<T>> = Seq::empty();
        proof {
            assert(nn * nn <= jd@.len());
        }
        let mut i: usize = 0;
        #[verifier::loop_isolation(false)]
        while i < n
            invariant
                n == nn,
                nn == self.dim(),
                y@ == solution.elems(),
                y@.len() == n,
                yd.elems() == y@,
                fb.elems().len() == n,
                f.elems() == f0,
                f0.len() == n,
                self.states_residual() ==> self.residual_at(y@) == Ok::<Seq<T>, Self::Error>(f0),
                scale == fd_scale::<T>(),
                nn * nn <= jd@.len(),
                jlen == jd@.len(),
                jd@.len() == old(jacobian).elems().len(),
                res_at == (|z: Seq<T>| self.residual_at(z)),
                i <= n,
                self.states_residual() ==> fd_columns(res_at, y@, f0, nn, scale, i as nat) == Ok::<Seq<Seq<T>>, Self::Error>(cols),
                cols.len() == i,
                forall|c: int, j: int| 0 <= c < i && 0 <= j < n ==> #[trigger] jd@[j * nn + c] == cols[c][j],
            decreases n - i,
        {
            let y0 = y[i];
            let dy = scale.float_max(y0.float_abs().float_mul(scale));
            let d = yd.data_mut();
            d[i] = y0.float_add(dy);
            let ghost pt = y@.update(i as int, y0.add_spec(dy));
            proof {
                assert(yd.elems() =~= pt);
            }
            match self.residual(&mut fb, &yd) {
                Ok(()) => {},
                Err(e) => {
                    proof {
                        if self.states_residual() {
                            assert(res_at(pt) == self.residual_at(pt));
                            assert(dy == fd_step(y@[i as int], scale));
                            assert(fd_columns(res_at, y@, f0, nn, scale, (i + 1) as nat) == Err::<Seq<Seq<T>>, Self::Error>(e));
                            lemma_fd_columns_err(res_at, y@, f0, nn, scale, (i + 1) as nat, nn);
                        }
                    }
                    return Err(e);
                },
            }
            let ghost fbv = fb.elems();
            let ghost col = Seq::new(nn, |j: int| fbv[j].sub_spec(f0[j]).div_spec(dy));
            let fbd = fb.data();
            let fd = f.data();
            let mut j: usize = 0;
            while j < n
                invariant
                    n == nn,
                    i < n,
                    nn * nn <= jd@.len(),
                    jlen == jd@.len(),
                    jd@.len() == old(jacobian).elems().len(),
                    fbd@ == fbv,
                    fbv.len() == n,
                    fd@ == f0,
                    f0.len() == n,
                    col == Seq::new(nn, |j: int| fbv[j].sub_spec(f0[j]).div_spec(dy)),
                    j <= n,
                    cols.len() == i,
                    forall|c: int, r: int| 0 <= c < i && 0 <= r < n ==> #[trigger] jd@[r * nn + c] == cols[c][r],
                    forall|r: int| 0 <= r < j ==> #[trigger] jd@[r * nn + i] == col[r],
                decreases n - j,
            {
                proof {
                    lemma_row_major_index(j as int, i as int, n as int, n as int);
                }
                let k = j * n + i;
                jd[k] = fbd[j].float_sub(fd[j]).float_div(dy);
                proof {
                    assert forall|c: int, r: int| 0 <= c < i && 0 <= r < n implies #[trigger] jd@[r * nn + c] == cols[c][r] by {
                        lemma_row_major_index(r, c, n as int, n as int);
                        if r * nn + c == k {
                            crate::linalg::matrix::lemma_row_major_unique(r, c, j as int, i as int, n as int);
                        }
                    }
                    assert forall|r: int| 0 <= r < j + 1 implies #[trigger] jd@[r * nn + i] == col[r] by {
                        lemma_row_major_index(r, i as int, n as int, n as int);
                        if r * nn + i == k {
                            crate::linalg::matrix::lemma_row_major_unique(r, i as int, j as int, i as int, n as int);
                        }
                    }
                }
                j = j + 1;
            }
            let d = yd.data_mut();
            d[i] = y0;
            proof {
                assert(yd.elems() =~= y@);
                if self.states_residual() {
                    assert(res_at(pt) == self.residual_at(pt));
                    assert(dy == fd_step(y@[i as int], scale));
                    assert(fd_columns(res_at, y@, f0, nn, scale, (i + 1) as nat) == Ok::<Seq<Seq<T>>, Self::Error>(cols.push(col)));
                }
                cols = cols.push(col);
                assert forall|c: int, r: int| 0 <= c < i + 1 && 0 <= r < n implies #[trigger] jd@[r * nn + c] == cols[c][r] by {}
            }
            i = i + 1;
        }
        Ok(())
    }
}

/// `x[0]^2 + x[1]^2 + ...` (with `powi(2)`), added from the left onto 0.
pub open spec fn sum_squares<T: FloatNumber>(xs: Seq<T>) -> T
    decreases xs.len(),
{
    if xs.len() == 0 {
        T::zero_spec()
    } else {
        sum_squares(xs.drop_last()).add_spec(xs.last().powi_spec(2))
    }
}

/// `x - stab delta`, entry by entry.
pub open spec fn damped_update<T: FloatNumber>(x: Seq<T>, delta: Seq<T>, stab: T) -> Seq<T> {
    Seq::new(x.len(), |i: int| x[i].sub_spec(delta[i].mul_spec(stab)))
}

/// The Jacobian is recomputed and factorized again on the first step and on every third.
pub open spec fn refreshes_jacobian(niters: nat) -> bool {
    niters == 0 || niters % 3 == 0
}

/// The damping factor after a correction of norm `rnorm` that followed one of norm
/// `rlast`: cut down (by at most `rlast / rnorm`, by no more than 1.2 up) and kept
/// within `[0.1, 1]` when the norm grew tenfold, else unchanged.
pub open spec fn next_stab<T: FloatNumber>(stab: T, rlast: T, rnorm: T) -> T {
    if rlast.mul_spec(T::from_i32_spec(10)).lt_spec(rnorm) {
        let factor = T::one_spec().mul_spec(rlast.div_spec(rnorm).powi_spec(1)).min_spec(T::fraction_spec(12, 10));
        stab.mul_spec(factor).min_spec(T::one_spec()).max_spec(T::fraction_spec(1, 10))
    } else {
        stab
    }
}

/// The damping factor after steps whose correction norms are `norms`, starting
/// from `stab0` with a previous norm of 1.
pub open spec fn damping_after<T: FloatNumber>(stab0: T, norms: Seq<T>) -> T
    decreases norms.len(),
{
    if norms.len() == 0 {
        stab0
    } else {
        let m = norms.len();
        let rlast = if m == 1 { T::one_spec() } else { norms[m - 2] };
        next_stab(damping_after(stab0, norms.drop_last()), rlast, norms[m - 1])
    }
}

/// The correction norms `norms` of the steps of a solve that ended on its last
/// step: none but the last below the tolerance, and the damping factor and
/// previous norm they leave behind.
pub open spec fn newton_history<T: FloatNumber>(norms: Seq<T>, stab0: T, tol: T, stab: T, last: T) -> bool {
    let n = norms.len() as int;
    &&& n >= 1
    &&& forall|q: int| 0 <= q < n - 1 ==> !(#[trigger] norms[q]).lt_spec(tol)
    &&& stab == damping_after(stab0, norms.drop_last())
    &&& last == if n == 1 { T::one_spec() } else { norms[n - 2] }
}

/// The correction norms `norms` of the steps completed before a step failed:
/// none below the tolerance, and the damping factor and previous norm they leave behind.
pub open spec fn newton_partial_history<T: FloatNumber>(norms: Seq<T>, stab0: T, tol: T, stab: T, last: T) -> bool {
    &&& forall|q: int| 0 <= q < norms.len() ==> !(#[trigger] norms[q]).lt_spec(tol)
    &&& stab == damping_after(stab0, norms)
    &&& last == if norms.len() == 0 { T::one_spec() } else { norms.last() }
}

/// The iterates `xs` of a Newton solve of `problem` from `xs[0]` with damping
/// `stab0`, for a factorization of the kind of `fac`: step `k` computes the
/// residual `rs[k]` at `xs[k]` (the problem's `residual_at`, where stated),
/// solves for the correction `ds[k]` with the factorization of the Jacobian
/// `ms[k]`, has the correction norm `norms[k]` and moves to
/// `xs[k + 1] = xs[k] - stab_k ds[k]`, `stab_k` being the damping after the
/// earlier steps. The Jacobian is written at `xs[k]` on the steps that refresh
/// it (the forward difference Jacobian of `residual_at` for a problem whose
/// Jacobian is that) and kept from the step before on the others.
pub open spec fn newton_iterates<T: FloatNumber, P: RootProblem<T>, F: MatrixFactorization<T>>(
    problem: P,
    fac: F,
    xs: Seq<Seq<T>>,
    ds: Seq<Seq<T>>,
    ms: Seq<Seq<T>>,
    rs: Seq<Seq<T>>,
    norms: Seq<T>,
    stab0: T,
) -> bool {
    &&& xs.len() == norms.len() + 1
    &&& ds.len() == norms.len()
    &&& ms.len() == norms.len()
    &&& rs.len() == norms.len()
    &&& forall|k: int|
        #![trigger ds[k]]
        0 <= k < norms.len() ==> {
            &&& ds[k] == fac.solution_with(ms[k], rs[k])
            &&& norms[k] == sum_squares(ds[k]).sqrt_spec()
            &&& xs[k + 1] == damped_update(xs[k], ds[k], damping_after(stab0, norms.take(k)))
            &&& problem.states_residual() ==> problem.residual_at(xs[k]) == Ok::<Seq<T>, P::Error>(rs[k])
            &&& refreshes_jacobian(k as nat) && problem.jacobian_is_fd() && problem.states_residual()
                ==> fd_jacobian_written(
                |z: Seq<T>| problem.residual_at(z),
                xs[k],
                problem.dim(),
                fd_scale::<T>(),
                Ok::<(), P::Error>(()),
                ms[k],
            )
            &&& !refreshes_jacobian(k as nat) ==> ms[k] == ms[k - 1]
        }
}

// find the root of functions using a newton raphson algorithm
pub struct NewtonSolver<T, P, F = DynamicLu<T>> where F: MatrixFactorization<T>, P: RootProblem<T>, T: FloatNumber {
    problem: P,
    jacobian: DynamicMatrix<T>,
    residual: DynamicVector<T>,
    solution: DynamicVector<T>,
    delta: DynamicVector<T>,
    factorization: F,
    niters: usize,
    jacobian_frequency: usize,
    stab: T,
    residual_norm: T,
    last_residual: T,
    tolerance: T,
    max_iterations: usize,
}

#[derive(Debug)]
pub enum NewtonSolverError<E> {
    ProblemError(E),
    LinalgError(linalg::Error),
    MaxIterations,
}

impl<E> NewtonSolverError<E> {
    fn handle_problem(r: Result<(), E>) -> (res: Result<(), Self>)
        ensures
            match r {
                Ok(()) => res is Ok,
                Err(e) => res == Err::<(), Self>(NewtonSolverError::ProblemError(e)),
            },
    {
        match r {
            Ok(()) => Ok(()),
            Err(e) => Err(Self::ProblemError(e)),
        }
    }

    fn handle_linalg(r: Result<(), linalg::Error>) -> (res: Result<(), Self>)
        ensures
            match r {
                Ok(()) => res is Ok,
                Err(e) => res == Err::<(), Self>(NewtonSolverError::LinalgError(e)),
            },
    {
        match r {
            Ok(()) => Ok(()),
            Err(e) => Err(Self::LinalgError(e)),
        }
    }
}

#[derive(Debug)]
pub struct NewtonSolverResult<T> {
    iterations: usize,
    final_residual: T,
}

impl<T> NewtonSolverResult<T> {
    /// Number of Newton steps taken.
    pub closed spec fn iterations_spec(&self) -> usize {
        self.iterations
    }

    /// Norm of the last Newton correction.
    pub closed spec fn final_residual_spec(&self) -> T {
        self.final_residual
    }
}

impl<T, P, F> NewtonSolver<T, P, F> where F: MatrixFactorization<T>, T: FloatNumber, P: RootProblem<T> {
    pub closed spec fn problem_spec(&self) -> P {
        self.problem
    }

    pub closed spec fn solution_seq(&self) -> Seq<T> {
        self.solution.elems()
    }

    /// Residual at the start of the last step.
    pub closed spec fn residual_seq(&self) -> Seq<T> {
        self.residual.elems()
    }

    /// Last Newton correction.
    pub closed spec fn delta_seq(&self) -> Seq<T> {
        self.delta.elems()
    }

    pub closed spec fn niters_spec(&self) -> usize {
        self.niters
    }

    /// Damping factor applied to each correction.
    pub closed spec fn stab_spec(&self) -> T {
        self.stab
    }

    /// Norm of the last correction.
    pub closed spec fn residual_norm_spec(&self) -> T {
        self.residual_norm
    }

    pub closed spec fn last_residual_spec(&self) -> T {
        self.last_residual
    }

    pub closed spec fn tolerance_spec(&self) -> T {
        self.tolerance
    }

    pub closed spec fn max_iterations_spec(&self) -> usize {
        self.max_iterations
    }

    /// The factorization of the last Jacobian.
    pub closed spec fn factorization_spec(&self) -> F {
        self.factorization
    }

    /// Number of variables.
    pub open spec fn size_spec(&self) -> nat {
        self.solution_seq().len()
    }

    /// The Jacobian last written by the problem, row-major.
    pub closed spec fn jacobian_seq(&self) -> Seq<T> {
        self.jacobian.elems()
    }

    /// `e` is what a Newton step from the current solution, after `niters_spec()`
    /// steps, can fail with. A linear-algebra error comes from factorizing the
    /// Jacobian held, on a step that refreshed it. For a problem that states its
    /// residual, a problem error is the residual's error at the solution on a step
    /// that kept the Jacobian, and on one that refreshed it the error of the
    /// forward difference Jacobian, for a problem whose Jacobian is that.
    pub open spec fn step_failure(&self, e: NewtonSolverError<P::Error>) -> bool {
        match e {
            NewtonSolverError::LinalgError(le) => {
                &&& refreshes_jacobian(self.niters_spec() as nat)
                &&& self.factorization_spec().factorize_outcome(self.jacobian_seq()) == Err::<(), linalg::Error>(le)
            },
            NewtonSolverError::ProblemError(pe) => {
                let p = self.problem_spec();
                p.states_residual() ==> if refreshes_jacobian(self.niters_spec() as nat) {
                    p.jacobian_is_fd() ==> fd_jacobian(
                        |z: Seq<T>| p.residual_at(z),
                        self.solution_seq(),
                        p.dim(),
                        fd_scale::<T>(),
                    ) == Err::<Seq<Seq<T>>, P::Error>(pe)
                } else {
                    p.residual_at(self.solution_seq()) == Err::<Seq<T>, P::Error>(pe)
                }
            },
            NewtonSolverError::MaxIterations => false,
        }
    }

    /// Buffers sized for the problem; the Jacobian refreshed every third step.
    pub closed spec fn wf(&self) -> bool {
        let n = self.size_spec();
        &&& self.jacobian.has_shape() <==> n > 0
        &&& self.jacobian.ncols() == n
        &&& n > 0 ==> self.jacobian.nrows() == n
        &&& self.jacobian.elems().len() == n * n
        &&& self.residual.elems().len() == n
        &&& self.delta.elems().len() == n
        &&& self.factorization.dim() == n
        &&& n > 0 ==> self.factorization.solvable()
        &&& self.jacobian_frequency == 3
        &&& self.max_iterations == 500
    }

    pub fn problem(&self) -> (p: &P)
        ensures
            *p == self.problem_spec(),
    {
        &self.problem
    }

    pub fn problem_mut(&mut self) -> (p: &mut P)
        ensures
            *p == old(self).problem_spec(),
            final(self).problem_spec() == *final(p),
            final(self).solution_seq() == old(self).solution_seq(),
            final(self).niters_spec() == old(self).niters_spec(),
            final(self).stab_spec() == old(self).stab_spec(),
            final(self).tolerance_spec() == old(self).tolerance_spec(),
            final(self).residual_norm_spec() == old(self).residual_norm_spec(),
            final(self).last_residual_spec() == old(self).last_residual_spec(),
            final(self).size_spec() == old(self).size_spec(),
            old(self).wf() ==> final(self).wf(),
    {
        &mut self.problem
    }

    pub fn len(&self) -> (n: usize)
        ensures
            n == self.size_spec(),
    {
        self.solution.len()
    }

    pub fn new(problem: P) -> (s: Self)
        requires
            problem.dim() < usize::MAX,
            problem.dim() * problem.dim() <= usize::MAX,
        ensures
            s.wf(),
            s.problem_spec() == problem,
            s.size_spec() == problem.dim(),
            s.solution_seq() == Seq::new(problem.dim(), |i: int| T::zero_spec()),
            s.niters_spec() == 0,
            s.stab_spec() == T::one_spec(),
            s.residual_norm_spec() == T::one_spec(),
            s.last_residual_spec() == T::one_spec(),
            s.tolerance_spec() == T::epsilon_spec().sqrt_spec().mul_spec(T::from_i32_spec(100)),
            s.max_iterations_spec() == 500,
    {
        let size = problem.size();

        let jacobian = DynamicMatrix::new(T::zero(), [size, size]);
        let residual = DynamicVector::new(T::zero(), size);
        let solution = DynamicVector::new(T::zero(), size);
        let delta = DynamicVector::new(T::zero(), size);
        let factorization = F::allocate(size);
        let tolerance = T::epsilon().float_sqrt().float_mul(T::float_from_i32(100));
        Self {
            problem,
            jacobian,
            residual,
            solution,
            delta,
            factorization,
            niters: 0,
            jacobian_frequency: 3,
            stab: T::one(),
            residual_norm: T::one(),
            last_residual: T::one(),
            tolerance,
            max_iterations: 500,
        }
    }

    /// Starts the next solve from the first `len()` entries of `guess`.
    pub fn set_initial_guess(&mut self, guess: &impl Vector<T>)
        requires
            guess.elems().len() >= old(self).size_spec(),
        ensures
            final(self).solution_seq() == guess.elems().take(old(self).size_spec() as int),
            final(self).niters_spec() == 0,
            final(self).problem_spec() == old(self).problem_spec(),
            final(self).stab_spec() == old(self).stab_spec(),
            final(self).tolerance_spec() == old(self).tolerance_spec(),
            final(self).size_spec() == old(self).size_spec(),
            old(self).wf() ==> final(self).wf(),
    {
        let g = guess.data();
        let n = self.len();
        let d = self.solution.data_mut();
        let mut i: usize = 0;
        while i < n
            invariant
                n == d@.len(),
                g@ == guess.elems(),
                g@.len() >= n,
                i <= n,
                forall|k: int| 0 <= k < i ==> #[trigger] d@[k] == g@[k],
            decreases n - i,
        {
            d[i] = g[i];
            i = i + 1;
        }
        proof {
            assert(d@ =~= g@.take(n as int));
        }
        self.niters = 0;
    }

    /// Puts the damping factor back at 1, its value in a new solver.
    pub fn reset_damping(&mut self)
        ensures
            final(self).stab_spec() == T::one_spec(),
            final(self).problem_spec() == old(self).problem_spec(),
            final(self).solution_seq() == old(self).solution_seq(),
            final(self).niters_spec() == old(self).niters_spec(),
            final(self).tolerance_spec() == old(self).tolerance_spec(),
            final(self).size_spec() == old(self).size_spec(),
            old(self).wf() ==> final(self).wf(),
    {
        self.stab = T::one();
    }

    pub fn solution<'a>(&'a self) -> (v: linalg::vector::VectorView<'a, T>)
        ensures
            v.entries() == self.solution_seq(),
    {
        self.solution.view()
    }

    /// Runs Newton steps from the current solution until the correction norm drops
    /// below the tolerance, for at most 500 steps.
    pub fn solve(&mut self) -> (r: Result<NewtonSolverResult<T>, NewtonSolverError<P::Error>>)
        requires
            old(self).wf(),
            old(self).size_spec() > 0,
            old(self).problem_spec().dim() == old(self).size_spec(),
            old(self).problem_spec().wf(),
        ensures
            final(self).wf(),
            final(self).problem_spec() == old(self).problem_spec(),
            final(self).size_spec() == old(self).size_spec(),
            final(self).tolerance_spec() == old(self).tolerance_spec(),
            exists|xs: Seq<Seq<T>>, ds: Seq<Seq<T>>, ms: Seq<Seq<T>>, rs: Seq<Seq<T>>, norms: Seq<T>|
                {
                    &&& #[trigger] newton_iterates(
                        old(self).problem_spec(),
                        old(self).factorization_spec(),
                        xs,
                        ds,
                        ms,
                        rs,
                        norms,
                        old(self).stab_spec(),
                    )
                    &&& norms.len() == final(self).niters_spec()
                    &&& xs[0] == old(self).solution_seq()
                    &&& xs.last() == final(self).solution_seq()
                },
            r is Ok || r == Err::<NewtonSolverResult<T>, NewtonSolverError<P::Error>>(NewtonSolverError::MaxIterations)
                ==> final(self).residual_norm_spec() == sum_squares(final(self).delta_seq()).sqrt_spec(),
            r is Ok || r == Err::<NewtonSolverResult<T>, NewtonSolverError<P::Error>>(NewtonSolverError::MaxIterations)
                ==> exists|norms: Seq<T>|
                {
                    &&& #[trigger] newton_history(
                        norms,
                        old(self).stab_spec(),
                        old(self).tolerance_spec(),
                        final(self).stab_spec(),
                        final(self).last_residual_spec(),
                    )
                    &&& norms.len() == final(self).niters_spec()
                    &&& norms.last() == final(self).residual_norm_spec()
                },
            match r {
                Ok(res) => {
                    &&& res.iterations_spec() == final(self).niters_spec()
                    &&& res.final_residual_spec() == final(self).residual_norm_spec()
                    &&& final(self).residual_norm_spec().lt_spec(final(self).tolerance_spec())
                    &&& 1 <= final(self).niters_spec() <= 500
                },
                Err(NewtonSolverError::MaxIterations) => {
                    &&& final(self).niters_spec() == 500
                    &&& !final(self).residual_norm_spec().lt_spec(final(self).tolerance_spec())
                },
                Err(e) => {
                    &&& final(self).step_failure(e)
                    &&& final(self).niters_spec() < 500
                    &&& exists|norms: Seq<T>|
                        {
                            &&& #[trigger] newton_partial_history(
                                norms,
                                old(self).stab_spec(),
                                old(self).tolerance_spec(),
                                final(self).stab_spec(),
                                final(self).last_residual_spec(),
                            )
                            &&& norms.len() == final(self).niters_spec()
                        }
                },
            },
    {
        self.niters = 0;
        self.residual_norm = T::one();
        self.last_residual = T::one();
        let ghost stab0 = self.stab;
        let ghost mut norms: Seq<T> = Seq::empty();
        let ghost mut xs: Seq<Seq<T>> = seq![self.solution_seq()];
        let ghost mut ds: Seq<Seq<T>> = Seq::empty();
        let ghost mut ms: Seq<Seq<T>> = Seq::empty();
        let ghost fac0 = self.factorization;
        let ghost mut rs: Seq<Seq<T>> = Seq::empty();
        loop
            invariant_except_break
                self.niters < 500,
                newton_partial_history(norms, stab0, self.tolerance, self.stab, self.last_residual),
                norms.len() == self.niters,
            invariant
                stab0 == old(self).stab,
                newton_iterates(old(self).problem_spec(), fac0, xs, ds, ms, rs, norms, stab0),
                fac0 == old(self).factorization_spec(),
                self.niters == norms.len(),
                forall|m: Seq<T>, b: Seq<T>| #[trigger] self.factorization_spec().solution_with(m, b) == fac0.solution_with(m, b),
                norms.len() > 0 ==> forall|b: Seq<T>| #[trigger] self.factorization_spec().solution_for(b) == fac0.solution_with(ms.last(), b),
                norms.len() > 0 ==> self.jacobian_seq() == ms.last(),
                xs[0] == old(self).solution_seq(),
                xs.last() == self.solution_seq(),
                self.wf(),
                self.size_spec() == old(self).size_spec(),
                self.size_spec() > 0,
                self.problem_spec() == old(self).problem_spec(),
                self.problem_spec().dim() == self.size_spec(),
                self.problem_spec().wf(),
                self.tolerance_spec() == old(self).tolerance_spec(),
            ensures
                self.residual_norm_spec().lt_spec(self.tolerance_spec()),
                1 <= self.niters <= 500,
                self.residual_norm_spec() == sum_squares(self.delta_seq()).sqrt_spec(),
                newton_history(norms, stab0, self.tolerance, self.stab, self.last_residual),
                norms.len() == self.niters,
                norms.last() == self.residual_norm,
            decreases 500 - self.niters,
        {
            let ghost x_before = self.solution_seq();
            let ghost stab_before = self.stab;
            match self.attempt_step() {
                Ok(()) => {},
                Err(e) => {
                    proof {
                        assert(newton_partial_history(
                            norms,
                            old(self).stab_spec(),
                            old(self).tolerance_spec(),
                            self.stab_spec(),
                            self.last_residual_spec(),
                        ));
                    }
                    return Err(e);
                },
            }
            self.niters = self.niters + 1;
            let ghost prev = norms;
            proof {
                assert(prev.take(prev.len() as int) =~= prev);
                assert(stab_before == damping_after(stab0, prev.take(prev.len() as int)));
                let k = prev.len() as int;
                let ghost pxs = xs;
                let ghost pds = ds;
                norms = norms.push(self.residual_norm);
                xs = xs.push(self.solution_seq());
                ds = ds.push(self.delta_seq());
                ms = if refreshes_jacobian(k as nat) { ms.push(self.jacobian_seq()) } else { ms.push(ms.last()) };
                rs = rs.push(self.residual_seq());
                assert(norms.drop_last() =~= prev);
                let ghost pms = ms.drop_last();
                assert(ds[k] == fac0.solution_with(ms[k], rs[k]));
                assert forall|j: int| #![trigger ds[j]] 0 <= j < norms.len() implies {
                    &&& ds[j] == fac0.solution_with(ms[j], rs[j])
                    &&& norms[j] == sum_squares(ds[j]).sqrt_spec()
                    &&& xs[j + 1] == damped_update(xs[j], ds[j], damping_after(stab0, norms.take(j)))
                    &&& old(self).problem_spec().states_residual() ==> old(self).problem_spec().residual_at(xs[j])
                        == Ok::<Seq<T>, P::Error>(rs[j])
                    &&& refreshes_jacobian(j as nat) && old(self).problem_spec().jacobian_is_fd()
                        && old(self).problem_spec().states_residual() ==> fd_jacobian_written(
                        |z: Seq<T>| old(self).problem_spec().residual_at(z),
                        xs[j],
                        old(self).problem_spec().dim(),
                        fd_scale::<T>(),
                        Ok::<(), P::Error>(()),
                        ms[j],
                    )
                    &&& !refreshes_jacobian(j as nat) ==> ms[j] == ms[j - 1]
                } by {
                    assert(norms.take(j) =~= prev.take(j));
                    if j < k {
                        assert(pds[j] == ds[j]);
                        assert(pms[j] == ms[j]);
                        if j > 0 {
                            assert(pms[j - 1] == ms[j - 1]);
                        }
                    } else {
                        assert(xs[j] == x_before);
                    }
                }
                assert(newton_iterates(old(self).problem_spec(), fac0, xs, ds, ms, rs, norms, stab0));
                assert(xs.last() == self.solution_seq());
                assert(xs[0] == old(self).solution_seq());
            }
            if self.residual_norm.float_lt(self.tolerance) {
                break;
            }
            if self.niters >= self.max_iterations {
                proof {
                    assert(newton_history(
                        norms,
                        old(self).stab_spec(),
                        old(self).tolerance_spec(),
                        self.stab_spec(),
                        self.last_residual_spec(),
                    ));
                }
                return Err(NewtonSolverError::MaxIterations);
            }
            // adjust the stabilization factor
            if self.last_residual.float_mul(T::float_from_i32(10)).float_lt(self.residual_norm) {
                let rlast = self.last_residual;
                let rnorm = self.residual_norm;
                let factor = T::one().float_mul(rlast.float_div(rnorm).float_powi(1)).float_min(T::fraction(12, 10));
                self.stab = self.stab.float_mul(factor);
                self.stab = self.stab.float_min(T::one()).float_max(T::fraction(1, 10));
            }
            self.last_residual = self.residual_norm;
        }
        proof {
            assert(newton_history(
                norms,
                old(self).stab_spec(),
                old(self).tolerance_spec(),
                self.stab_spec(),
                self.last_residual_spec(),
            ));
        }
        Ok(NewtonSolverResult { iterations: self.niters, final_residual: self.residual_norm })
    }

    /// One Newton step: refresh and factorize the Jacobian when due, solve for the
    /// correction of the residual, and take the damped step.
    fn attempt_step(&mut self) -> (r: Result<(), NewtonSolverError<P::Error>>)
        requires
            old(self).wf(),
            old(self).size_spec() > 0,
            old(self).problem_spec().dim() == old(self).size_spec(),
            old(self).problem_spec().wf(),
        ensures
            final(self).wf(),
            final(self).problem_spec() == old(self).problem_spec(),
            final(self).size_spec() == old(self).size_spec(),
            final(self).niters_spec() == old(self).niters_spec(),
            final(self).stab_spec() == old(self).stab_spec(),
            final(self).tolerance_spec() == old(self).tolerance_spec(),
            final(self).last_residual_spec() == old(self).last_residual_spec(),
            !refreshes_jacobian(old(self).niters_spec() as nat) ==> final(self).factorization_spec()
                == old(self).factorization_spec(),
            r is Err ==> final(self).solution_seq() == old(self).solution_seq(),
            r is Ok ==> {
                &&& final(self).delta_seq() == final(self).factorization_spec().solution_for(final(self).residual_seq())
                &&& final(self).residual_norm_spec() == sum_squares(final(self).delta_seq()).sqrt_spec()
                &&& final(self).solution_seq() == damped_update(
                    old(self).solution_seq(),
                    final(self).delta_seq(),
                    old(self).stab_spec(),
                )
            },
            old(self).problem_spec().states_residual() ==> match old(self).problem_spec().residual_at(
                old(self).solution_seq(),
            ) {
                Ok(res) => r is Ok ==> final(self).residual_seq() == res,
                Err(e) => r is Err && (!refreshes_jacobian(old(self).niters_spec() as nat) ==> r
                    == Err::<(), NewtonSolverError<P::Error>>(NewtonSolverError::ProblemError(e))),
            },
            old(self).problem_spec().states_residual() && !refreshes_jacobian(old(self).niters_spec() as nat) ==> (r is Ok
                <==> old(self).problem_spec().residual_at(old(self).solution_seq()) is Ok),
            r != Err::<(), NewtonSolverError<P::Error>>(NewtonSolverError::MaxIterations),
            r is Err ==> final(self).step_failure(r->Err_0),
            !refreshes_jacobian(old(self).niters_spec() as nat) ==> final(self).jacobian_seq() == old(self).jacobian_seq(),
            forall|m: Seq<T>, b: Seq<T>| #[trigger] final(self).factorization_spec().solution_with(m, b)
                == old(self).factorization_spec().solution_with(m, b),
            r is Ok && refreshes_jacobian(old(self).niters_spec() as nat) ==> forall|b: Seq<T>|
                #[trigger] final(self).factorization_spec().solution_for(b)
                    == old(self).factorization_spec().solution_with(final(self).jacobian_seq(), b),
            ({
                let p = old(self).problem_spec();
                r is Ok && refreshes_jacobian(old(self).niters_spec() as nat) && p.jacobian_is_fd() && p.states_residual()
                    ==> fd_jacobian_written(
                    |z: Seq<T>| p.residual_at(z),
                    old(self).solution_seq(),
                    p.dim(),
                    fd_scale::<T>(),
                    Ok::<(), P::Error>(()),
                    final(self).jacobian_seq(),
                )
            }),
    {
        let n = self.len();
        if (self.niters == 0) || (self.niters % self.jacobian_frequency == 0) {
            // recompute the jacobian matrix
            let jr = self.problem.jacobian(&mut self.jacobian, &self.solution);
            match NewtonSolverError::handle_problem(jr) {
                Ok(()) => {},
                Err(e) => {
                    return Err(e);
                },
            }
            // set the factorization solver matrix
            let sr = self.factorization.set_matrix(&self.jacobian);
            match NewtonSolverError::handle_linalg(sr) {
                Ok(()) => {},
                Err(e) => {
                    return Err(e);
                },
            }
            // factorize the jacobian
            let fr = self.factorization.factorize();
            match NewtonSolverError::handle_linalg(fr) {
                Ok(()) => {},
                Err(e) => {
                    return Err(e);
                },
            }
        }
        // assemble the residual
        let rr = self.problem.residual(&mut self.residual, &self.solution);
        match NewtonSolverError::handle_problem(rr) {
            Ok(()) => {},
            Err(e) => {
                return Err(e);
            },
        }
        // solve the problem
        self.factorization.solve(&mut self.delta, &self.residual);

        let dd = self.delta.data();
        let mut rnorm = T::zero();
        let mut i: usize = 0;
        while i < n
            invariant
                n == dd@.len(),
                i <= n,
                rnorm == sum_squares(dd@.take(i as int)),
            decreases n - i,
        {
            proof {
                assert(dd@.take(i + 1).drop_last() =~= dd@.take(i as int));
            }
            rnorm = rnorm.float_add(dd[i].float_powi(2));
            i = i + 1;
        }
        proof {
            assert(dd@.take(n as int) =~= dd@);
        }
        rnorm = rnorm.float_sqrt();
        self.residual_norm = rnorm;

        let stab = self.stab;
        let ghost x0 = self.solution.elems();
        let sd = self.solution.data_mut();
        let mut i: usize = 0;
        while i < n
            invariant
                n == dd@.len(),
                n == sd@.len(),
                x0.len() == n,
                i <= n,
                forall|k: int| 0 <= k < i ==> #[trigger] sd@[k] == x0[k].sub_spec(dd@[k].mul_spec(stab)),
                forall|k: int| i <= k < n ==> #[trigger] sd@[k] == x0[k],
            decreases n - i,
        {
            sd[i] = sd[i].float_sub(dd[i].float_mul(stab));
            i = i + 1;
        }
        proof {
            assert(sd@ =~= damped_update(x0, dd@, stab));
        }
        Ok(())
    }
}

} // verus!
