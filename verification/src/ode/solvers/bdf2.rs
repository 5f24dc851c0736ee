//! Adaptive implicit BDF-2 integration, for stiff problems.
use vstd::prelude::*;

use crate::linalg;
use crate::linalg::factorize::lu::DynamicLu;
use crate::linalg::matrix::{lemma_row_major_index, lemma_row_major_unique, MatrixMut};
use crate::linalg::vector::{DynamicVector, Vector, VectorMut, VectorView};
use crate::num_traits::FloatNumber;
use crate::ode::ode::Ode;
use crate::ode::solvers::Solver;
use crate::optimize::root::{fd_jacobian, NewtonSolver, NewtonSolverError, RootProblem};

verus! {

/// `c0 x + c1 y0 + c2 y1 - dt f`, entry by entry.
pub open spec fn bdf2_residual<T: FloatNumber>(
    x: Seq<T>,
    y0: Seq<T>,
    y1: Seq<T>,
    f: Seq<T>,
    c0: T,
    c1: T,
    c2: T,
    dt: T,
) -> Seq<T> {
    Seq::new(
        x.len(),
        |i: int| c0.mul_spec(x[i]).add_spec(c1.mul_spec(y0[i])).add_spec(c2.mul_spec(y1[i])).sub_spec(dt.mul_spec(f[i])),
    )
}

/// `m` is `c0 I - dt J0` for the row-major `n`-by-`n` matrix `j0`: each entry
/// of the leading `n n` is `-dt` times that of `j0`, plus `c0` on the diagonal;
/// the entries past them are those of `j0`.
pub open spec fn is_bdf2_jacobian<T: FloatNumber>(m: Seq<T>, j0: Seq<T>, n: nat, dt: T, c0: T) -> bool {
    &&& m.len() == j0.len()
    &&& forall|a: int, b: int|
        0 <= a < n && 0 <= b < n ==> #[trigger] m[a * n + b] == if a == b {
            dt.neg_spec().mul_spec(j0[a * n + b]).add_spec(c0)
        } else {
            dt.neg_spec().mul_spec(j0[a * n + b])
        }
    &&& forall|p: int| n * n <= p < m.len() ==> #[trigger] m[p] == j0[p]
}

/// The implicit equation of one BDF-2 step: its root is the solution at the end
/// of the step, given the solutions at the two previous times.
pub struct Bdf2SubProblem<T, F> where F: Ode<T> {
    ode: F,
    last_solution_0: DynamicVector<T>,
    last_solution_1: DynamicVector<T>,
    time: T,
    dt: T,
    c0: T,
    c1: T,
    c2: T,
}

impl<T, F> Bdf2SubProblem<T, F> where F: Ode<T> {
    pub closed spec fn ode_spec(&self) -> F {
        self.ode
    }

    /// The solution at the last accepted time.
    pub closed spec fn last_solution_0_seq(&self) -> Seq<T> {
        self.last_solution_0.elems()
    }

    /// The solution one accepted step before.
    pub closed spec fn last_solution_1_seq(&self) -> Seq<T> {
        self.last_solution_1.elems()
    }

    /// The time at which `f` is evaluated.
    pub closed spec fn time_spec(&self) -> T {
        self.time
    }

    pub closed spec fn dt_spec(&self) -> T {
        self.dt
    }

    /// The coefficients of the solution and of the two previous ones.
    pub closed spec fn coefficients(&self) -> (T, T, T) {
        (self.c0, self.c1, self.c2)
    }

    /// The previous solutions have one entry per unknown.
    pub closed spec fn sized(&self) -> bool {
        &&& self.last_solution_0.elems().len() == self.ode.dim()
        &&& self.last_solution_1.elems().len() == self.ode.dim()
    }
}

impl<T, F> RootProblem<T> for Bdf2SubProblem<T, F> where T: FloatNumber, F: Ode<T> {
    type Error = F::Error;

    open spec fn dim(&self) -> nat {
        self.ode_spec().dim()
    }

    open spec fn residual_at(&self, x: Seq<T>) -> Result<Seq<T>, Self::Error> {
        match self.ode_spec().f_at(x, self.time_spec()) {
            Ok(f) => Ok(
                bdf2_residual(
                    x,
                    self.last_solution_0_seq(),
                    self.last_solution_1_seq(),
                    f,
                    self.coefficients().0,
                    self.coefficients().1,
                    self.coefficients().2,
                    self.dt_spec(),
                ),
            ),
            Err(e) => Err(e),
        }
    }

    open spec fn states_residual(&self) -> bool {
        true
    }

    /// The Jacobian is not a difference quotient of the residual.
    open spec fn jacobian_is_fd(&self) -> bool {
        false
    }

    open spec fn wf(&self) -> bool {
        self.sized()
    }

    fn size(&self) -> (n: usize) {
        self.ode.problem_size()
    }

    fn residual(&self, residual: &mut impl VectorMut<T>, solution: &impl Vector<T>) -> (r: Result<(), Self::Error>) {
        match self.ode.eval_f(residual, solution, self.time) {
            Ok(()) => {},
            Err(e) => {
                return Err(e);
            },
        }
        let ghost f = residual.elems();
        let x = solution.data();
        let y0 = self.last_solution_0.data();
        let y1 = self.last_solution_1.data();
        let n = self.ode.problem_size();
        let rd = residual.data_mut();
        let mut i: usize = 0;
        while i < n
            invariant
                n == rd@.len(),
                n == x@.len(),
                n == y0@.len(),
                n == y1@.len(),
                f.len() == n,
                i <= n,
                forall|k: int|
                    0 <= k < i ==> #[trigger] rd@[k] == self.c0.mul_spec(x@[k]).add_spec(self.c1.mul_spec(y0@[k])).add_spec(
                        self.c2.mul_spec(y1@[k]),
                    ).sub_spec(self.dt.mul_spec(f[k])),
                forall|k: int| i <= k < n ==> #[trigger] rd@[k] == f[k],
            decreases n - i,
        {
            let fi = rd[i];
            rd[i] = self.c0.float_mul(x[i]).float_add(self.c1.float_mul(y0[i])).float_add(self.c2.float_mul(y1[i])).float_sub(
                self.dt.float_mul(fi),
            );
            i = i + 1;
        }
        proof {
            assert(rd@ =~= bdf2_residual(x@, y0@, y1@, f, self.c0, self.c1, self.c2, self.dt));
        }
        Ok(())
    }

    /// Once the ODE has written its Jacobian `J0` at the solution, turns it into
    /// `c0 I - dt J0`, the Jacobian of the step's residual.
    fn jacobian(&self, jacobian: &mut impl MatrixMut<T>, solution: &impl Vector<T>) -> (r: Result<(), Self::Error>)
        ensures
            r is Ok ==> exists|j0: Seq<T>|
                #[trigger] is_bdf2_jacobian(final(jacobian).elems(), j0, self.dim(), self.dt_spec(), self.coefficients().0),
            self.ode_spec().jacobian_is_fd() ==> match fd_jacobian(
                |z: Seq<T>| self.ode_spec().f_at(z, self.time_spec()),
                solution.elems(),
                self.dim(),
                T::epsilon_spec().sqrt_spec(),
            ) {
                Ok(cols) => r is Ok && forall|a: int, b: int|
                    0 <= a < self.dim() && 0 <= b < self.dim() ==> #[trigger] final(jacobian).elems()[a * self.dim() + b]
                        == if a == b {
                        self.dt_spec().neg_spec().mul_spec(cols[b][a]).add_spec(self.coefficients().0)
                    } else {
                        self.dt_spec().neg_spec().mul_spec(cols[b][a])
                    },
                Err(e) => r == Err::<(), Self::Error>(e),
            },
    {
        match self.ode.eval_jacobian(jacobian, solution, self.time) {
            Ok(()) => {},
            Err(e) => {
                return Err(e);
            },
        }
        let s = jacobian.shape();
        let nr = s[0];
        let nc = s[1];
        let jd = jacobian.data_mut();
        let ghost j0 = jd@;
        let ghost dt = self.dt;
        let ghost c0 = self.c0;
        let jlen = jd.len();
        let mut i: usize = 0;
        while i < nr
            invariant
                nr * nc <= jd@.len(),
                jlen == jd@.len(),
                j0.len() == jlen,
                nr == nc,
                i <= nr,
                dt == self.dt,
                c0 == self.c0,
                forall|a: int, b: int|
                    0 <= a < i && 0 <= b < nc ==> #[trigger] jd@[a * nc + b] == if a == b {
                        dt.neg_spec().mul_spec(j0[a * nc + b]).add_spec(c0)
                    } else {
                        dt.neg_spec().mul_spec(j0[a * nc + b])
                    },
                forall|p: int| i * nc <= p < jlen ==> #[trigger] jd@[p] == j0[p],
            decreases nr - i,
        {
            let mut j: usize = 0;
            while j < nc
                invariant
                    nr * nc <= jd@.len(),
                    jlen == jd@.len(),
                    j0.len() == jlen,
                    nr == nc,
                    i < nr,
                    j <= nc,
                    dt == self.dt,
                    forall|a: int, b: int|
                        0 <= a < i && 0 <= b < nc ==> #[trigger] jd@[a * nc + b] == if a == b {
                            dt.neg_spec().mul_spec(j0[a * nc + b]).add_spec(c0)
                        } else {
                            dt.neg_spec().mul_spec(j0[a * nc + b])
                        },
                    forall|b: int| 0 <= b < j ==> #[trigger] jd@[i * nc + b] == dt.neg_spec().mul_spec(j0[i * nc + b]),
                    forall|p: int| i * nc + j <= p < jlen ==> #[trigger] jd@[p] == j0[p],
                decreases nc - j,
            {
                proof {
                    lemma_row_major_index(i as int, j as int, nr as int, nc as int);
                }
                let aij = jd[i * nc + j];
                jd[i * nc + j] = self.dt.float_neg().float_mul(aij);
                proof {
                    assert forall|a: int, b: int| 0 <= a < i && 0 <= b < nc implies #[trigger] jd@[a * nc + b] == if a == b {
                        dt.neg_spec().mul_spec(j0[a * nc + b]).add_spec(c0)
                    } else {
                        dt.neg_spec().mul_spec(j0[a * nc + b])
                    } by {
                        lemma_row_major_index(a, b, nr as int, nc as int);
                        if a * nc + b == i * nc + j {
                            lemma_row_major_unique(a, b, i as int, j as int, nc as int);
                        }
                    }
                }
                j = j + 1;
            }
            proof {
                lemma_row_major_index(i as int, i as int, nr as int, nc as int);
            }
            jd[i * nc + i] = jd[i * nc + i].float_add(self.c0);
            proof {
                assert(jd@[i * nc + i] == dt.neg_spec().mul_spec(j0[i * nc + i]).add_spec(c0));
                assert((i + 1) * nc == i * nc + nc) by (nonlinear_arith);
                assert forall|a: int, b: int| 0 <= a < i + 1 && 0 <= b < nc implies #[trigger] jd@[a * nc + b] == if a == b {
                    dt.neg_spec().mul_spec(j0[a * nc + b]).add_spec(c0)
                } else {
                    dt.neg_spec().mul_spec(j0[a * nc + b])
                } by {
                    lemma_row_major_index(a, b, nr as int, nc as int);
                    if a * nc + b == i * nc + i {
                        lemma_row_major_unique(a, b, i as int, i as int, nc as int);
                    }
                    if a == i {
                        assert(jd@[i * nc + b] == jd@[a * nc + b]);
                    }
                }
            }
            i = i + 1;
        }
        proof {
            assert(is_bdf2_jacobian(jd@, j0, self.dim(), self.dt_spec(), self.coefficients().0));
            let n = self.dim();
            if self.ode.jacobian_is_fd() {
                let f = |z: Seq<T>| self.ode.f_at(z, self.time);
                if let Ok(cols) = fd_jacobian(f, solution.elems(), n, T::epsilon_spec().sqrt_spec()) {
                    assert forall|a: int, b: int| 0 <= a < n && 0 <= b < n implies #[trigger] jd@[a * n + b] == if a == b {
                        self.dt.neg_spec().mul_spec(cols[b][a]).add_spec(self.c0)
                    } else {
                        self.dt.neg_spec().mul_spec(cols[b][a])
                    } by {
                        assert(j0[a * n + b] == cols[b][a]);
                    }
                }
            }
        }
        Ok(())
    }
}

/// `(1 + 2x) / (1 + x)`: the weight of the new solution in the variable-step BDF-2
/// formula for a step ratio `x` (see `bdf2_weights`).
pub open spec fn bdf_d0_spec<T: FloatNumber>(x: T) -> T {
    T::one_spec().add_spec(T::two_spec().mul_spec(x)).div_spec(T::one_spec().add_spec(x))
}

/// `-x / (1 + x)`.
pub open spec fn bdf_d1_spec<T: FloatNumber>(x: T) -> T {
    x.neg_spec().div_spec(T::one_spec().add_spec(x))
}

/// The weights `(c0, c1, c2)` of the new solution and of the last two accepted
/// ones in the variable-step BDF-2 formula with step ratio `r = dt / last_dt`:
/// `c0 y + c1 y0 + c2 y1 = dt f(t + dt, y)` with `c0 = (1 + 2r) / (1 + r)`,
/// `c1 = -(1 + r)` and `c2 = r^2 / (1 + r)` (written `-r (-r / (1 + r))`).
pub open spec fn bdf2_weights<T: FloatNumber>(r: T) -> (T, T, T) {
    (bdf_d0_spec(r), T::one_spec().add_spec(r).neg_spec(), r.neg_spec().mul_spec(bdf_d1_spec(r)))
}

/// The truncation error estimate of one unknown, from the solutions `x`, `y0`,
/// `y1`, `y2` (newest first): the first differences divide by `dt`, `last_dt` and
/// `last_dt` again (the oldest one too is taken over `last_dt`; `last_dt_2` only
/// enters the second mean step), the second differences by the mean steps
/// `(dt + last_dt) / 2` and `(last_dt + last_dt_2) / 2`, the third by the mean of
/// those; the result is its magnitude times `dt^3`.
pub open spec fn bdf2_error_entry<T: FloatNumber>(x: T, y0: T, y1: T, y2: T, dt: T, last_dt: T, last_dt_2: T) -> T {
    let dy0 = x.sub_spec(y0).div_spec(dt);
    let dy1 = y0.sub_spec(y1).div_spec(last_dt);
    let dy2 = y1.sub_spec(y2).div_spec(last_dt);
    let dt0 = dt.add_spec(last_dt).mul_spec(T::half_spec());
    let dt1 = last_dt.add_spec(last_dt_2).mul_spec(T::half_spec());
    let dyy0 = dy0.sub_spec(dy1).div_spec(dt0);
    let dyy1 = dy1.sub_spec(dy2).div_spec(dt1);
    let dyyy = dyy0.sub_spec(dyy1).div_spec(dt0.add_spec(dt1).mul_spec(T::half_spec()));
    dyyy.abs_spec().mul_spec(dt.powi_spec(3)).abs_spec()
}

/// The largest entry error over the first `m` unknowns, from 0.
pub open spec fn bdf2_error<T: FloatNumber>(
    x: Seq<T>,
    y0: Seq<T>,
    y1: Seq<T>,
    y2: Seq<T>,
    dt: T,
    last_dt: T,
    last_dt_2: T,
    m: nat,
) -> T
    decreases m,
{
    if m == 0 {
        T::zero_spec()
    } else {
        let i = m - 1;
        bdf2_error(x, y0, y1, y2, dt, last_dt, last_dt_2, (m - 1) as nat).max_spec(
            bdf2_error_entry(x[i], y0[i], y1[i], y2[i], dt, last_dt, last_dt_2),
        )
    }
}

/// The step size proposed after an error estimate `truncmax` against the tolerance
/// `tol`: `0.9 dt min((tol / clamp(truncmax, EPSILON, 1e5))^(1/3), 1.2)`.
pub open spec fn bdf2_next_dt<T: FloatNumber>(dt: T, tol: T, truncmax: T) -> T {
    T::fraction_spec(9, 10).mul_spec(dt).mul_spec(
        tol.div_spec(truncmax.max_spec(T::epsilon_spec()).min_spec(T::from_i32_spec(100000))).powf_spec(
            T::fraction_spec(1, 3),
        ).min_spec(T::fraction_spec(12, 10)),
    )
}

/// The outcome of one attempt at a BDF-2 step.
pub enum Bdf2Attempt<FE> {
    /// The step was taken.
    Accepted,
    /// The error estimate was too large: the step size was reduced, try again.
    Rejected,
    /// The implicit solve failed: the step size was halved, try again.
    Failed(Bdf2Error<FE>),
    /// The implicit solve failed with a step size already below `EPSILON^2`.
    Stalled(Bdf2Error<FE>),
}

/// `e` is the error that the Newton solve left in the state `rf` maps to: too
/// many iterations without convergence, or a linear-algebra or ODE error that a
/// Newton step from the solution held can fail with.
pub open spec fn newton_failure<T: FloatNumber, F: Ode<T>>(
    rf: NewtonSolver<T, Bdf2SubProblem<T, F>, DynamicLu<T>>,
    e: Bdf2Error<F::Error>,
) -> bool {
    match e {
        Bdf2Error::Bdf2MaxIterations => rf.niters_spec() == 500 && !rf.residual_norm_spec().lt_spec(rf.tolerance_spec()),
        Bdf2Error::Linalg(le) => rf.niters_spec() < 500 && rf.step_failure(NewtonSolverError::LinalgError(le)),
        Bdf2Error::Ode(pe) => rf.niters_spec() < 500 && rf.step_failure(NewtonSolverError::ProblemError(pe)),
        _ => false,
    }
}

// Implicit Bdf-2 solver with adaptive step size
// Good for stiff problems
pub struct Bdf2<T: FloatNumber, F: Ode<T>> {
    // root finder to solve the sub time step problem
    root_finder: NewtonSolver<T, Bdf2SubProblem<T, F>, DynamicLu<T>>,
    // used for error estimation
    last_solution_2: DynamicVector<T>,
    t: T,
    dt: T,
    initial_dt: T,
    last_dt: T,
    last_dt_2: T,
    n_steps: usize,
    min_dt: T,
    te_tolerance: T,
}

#[derive(Debug)]
pub enum Bdf2Error<FE> {
    EulerMaxIterations,
    EulerAlphaDivergence,
    Bdf2MaxIterations,
    Linalg(linalg::Error),
    Ode(FE),
}

impl<T, F: Ode<T>> Bdf2<T, F> where T: FloatNumber {
    /// The implicit equation of the steps.
    pub closed spec fn sub_problem(&self) -> Bdf2SubProblem<T, F> {
        self.root_finder.problem_spec()
    }

    /// The Newton solver of the implicit equation.
    pub closed spec fn root_finder_spec(&self) -> NewtonSolver<T, Bdf2SubProblem<T, F>, DynamicLu<T>> {
        self.root_finder
    }

    /// The solution two accepted steps before the last one.
    pub closed spec fn last_solution_2_seq(&self) -> Seq<T> {
        self.last_solution_2.elems()
    }

    /// The step size that `reinit` restores.
    pub closed spec fn initial_dt_spec(&self) -> T {
        self.initial_dt
    }

    /// The last accepted step size.
    pub closed spec fn last_dt_spec(&self) -> T {
        self.last_dt
    }

    /// The accepted step size before the last.
    pub closed spec fn last_dt_2_spec(&self) -> T {
        self.last_dt_2
    }

    /// Below this step size the error estimate is ignored.
    pub closed spec fn min_dt_spec(&self) -> T {
        self.min_dt
    }

    /// The truncation error tolerance.
    pub closed spec fn te_tolerance_spec(&self) -> T {
        self.te_tolerance
    }

    /// The Newton solver and the buffers are sized for the system.
    pub closed spec fn wf(&self) -> bool {
        let n = self.root_finder.problem_spec().dim();
        &&& self.root_finder.wf()
        &&& self.root_finder.size_spec() == n
        &&& self.root_finder.problem_spec().sized()
        &&& self.last_solution_2.elems().len() == n
    }

    pub fn new(ode: F) -> (s: Self)
        requires
            ode.dim() < usize::MAX,
            ode.dim() * ode.dim() <= usize::MAX,
        ensures
            s.wf(),
            s.sub_problem().ode_spec() == ode,
            s.sub_problem().dim() == ode.dim(),
            s.root_finder_spec().solution_seq() == Seq::new(ode.dim(), |i: int| T::zero_spec()),
            s.sub_problem().last_solution_0_seq() == Seq::new(ode.dim(), |i: int| T::zero_spec()),
            s.sub_problem().last_solution_1_seq() == Seq::new(ode.dim(), |i: int| T::zero_spec()),
            s.last_solution_2_seq() == Seq::new(ode.dim(), |i: int| T::zero_spec()),
            s.sub_problem().time_spec() == T::zero_spec(),
            s.sub_problem().dt_spec() == T::fraction_spec(1, 1000000),
            s.sub_problem().coefficients() == (T::one_spec(), T::one_spec(), T::one_spec()),
            s.time_spec() == T::zero_spec(),
            s.step_size_spec() == T::fraction_spec(1, 1000000),
            s.initial_dt_spec() == T::fraction_spec(1, 1000000),
            s.last_dt_spec() == T::fraction_spec(1, 1000000),
            s.last_dt_2_spec() == T::fraction_spec(1, 1000000),
            s.steps_spec() == 0,
            s.min_dt_spec() == T::epsilon_spec().mul_spec(T::from_i32_spec(1000)),
            s.te_tolerance_spec() == T::epsilon_spec().sqrt_spec().mul_spec(T::from_i32_spec(100)),
    {
        let size = ode.problem_size();
        let sqreps = T::epsilon().float_sqrt();
        let dt0 = T::fraction(1, 1000000);
        let sub = Bdf2SubProblem {
            ode,
            last_solution_0: DynamicVector::new(T::zero(), size),
            last_solution_1: DynamicVector::new(T::zero(), size),
            time: T::zero(),
            dt: dt0,
            c0: T::one(),
            c1: T::one(),
            c2: T::one(),
        };
        let root_finder = NewtonSolver::new(sub);
        let min_dt = T::epsilon().float_mul(T::float_from_i32(1000));
        let te_tolerance = sqreps.float_mul(T::float_from_i32(100));
        Self {
            root_finder,
            last_solution_2: DynamicVector::new(T::zero(), size),
            t: T::zero(),
            dt: dt0,
            initial_dt: dt0,
            last_dt: dt0,
            last_dt_2: dt0,
            n_steps: 0,
            min_dt,
            te_tolerance,
        }
    }

    pub fn with_t0(self, t0: T) -> (s: Self)
        ensures
            s.wf() == self.wf(),
            s.root_finder_spec() == self.root_finder_spec(),
            s.last_solution_2_seq() == self.last_solution_2_seq(),
            s.steps_spec() == self.steps_spec(),
            s.time_spec() == t0,
            s.step_size_spec() == self.step_size_spec(),
            s.initial_dt_spec() == self.initial_dt_spec(),
            s.last_dt_spec() == self.last_dt_spec(),
            s.last_dt_2_spec() == self.last_dt_2_spec(),
            s.min_dt_spec() == self.min_dt_spec(),
            s.te_tolerance_spec() == self.te_tolerance_spec(),
    {
        let mut s = self;
        s.t = t0;
        s
    }

    pub fn with_dt0(self, dt0: T) -> (s: Self)
        ensures
            s.wf() == self.wf(),
            s.root_finder_spec() == self.root_finder_spec(),
            s.last_solution_2_seq() == self.last_solution_2_seq(),
            s.steps_spec() == self.steps_spec(),
            s.time_spec() == self.time_spec(),
            s.step_size_spec() == dt0,
            s.initial_dt_spec() == dt0,
            s.last_dt_spec() == dt0,
            s.last_dt_2_spec() == dt0,
            s.min_dt_spec() == self.min_dt_spec(),
            s.te_tolerance_spec() == self.te_tolerance_spec(),
    {
        let mut s = self;
        s.initial_dt = dt0;
        s.dt = dt0;
        s.last_dt = dt0;
        s.last_dt_2 = dt0;
        s
    }

    /// Starts from the first `dim` entries of `guess`, taken also as the two
    /// previous solutions.
    pub fn with_initial_guess(self, guess: &impl Vector<T>) -> (s: Self)
        requires
            self.wf(),
            guess.elems().len() >= self.dim(),
        ensures
            s.wf(),
            s.dim() == self.dim(),
            s.solution_seq() == guess.elems().take(self.dim() as int),
            s.sub_problem().last_solution_0_seq() == guess.elems().take(self.dim() as int),
            s.sub_problem().last_solution_1_seq() == guess.elems().take(self.dim() as int),
            s.last_solution_2_seq() == guess.elems().take(self.dim() as int),
            s.sub_problem().ode_spec() == self.sub_problem().ode_spec(),
            s.sub_problem().time_spec() == self.sub_problem().time_spec(),
            s.sub_problem().dt_spec() == self.sub_problem().dt_spec(),
            s.sub_problem().coefficients() == self.sub_problem().coefficients(),
            s.time_spec() == self.time_spec(),
            s.step_size_spec() == self.step_size_spec(),
            s.steps_spec() == self.steps_spec(),
            s.initial_dt_spec() == self.initial_dt_spec(),
            s.last_dt_spec() == self.last_dt_spec(),
            s.last_dt_2_spec() == self.last_dt_2_spec(),
            s.min_dt_spec() == self.min_dt_spec(),
            s.te_tolerance_spec() == self.te_tolerance_spec(),
    {
        let mut s = self;
        s.load(guess);
        s
    }

    /// Sets the solution and the three previous solutions to the first `dim` entries of `guess`.
    fn load(&mut self, guess: &impl Vector<T>)
        requires
            old(self).wf(),
            guess.elems().len() >= old(self).root_finder.problem_spec().dim(),
        ensures
            final(self).wf(),
            ({
                let g = guess.elems().take(old(self).root_finder.problem_spec().dim() as int);
                &&& final(self).root_finder.solution_seq() == g
                &&& final(self).root_finder.niters_spec() == 0
                &&& final(self).root_finder.problem_spec().last_solution_0_seq() == g
                &&& final(self).root_finder.problem_spec().last_solution_1_seq() == g
                &&& final(self).last_solution_2.elems() == g
            }),
            final(self).root_finder.problem_spec().ode_spec() == old(self).root_finder.problem_spec().ode_spec(),
            final(self).root_finder.problem_spec().time_spec() == old(self).root_finder.problem_spec().time_spec(),
            final(self).root_finder.problem_spec().dt_spec() == old(self).root_finder.problem_spec().dt_spec(),
            final(self).root_finder.problem_spec().coefficients() == old(self).root_finder.problem_spec().coefficients(),
            final(self).t == old(self).t,
            final(self).dt == old(self).dt,
            final(self).n_steps == old(self).n_steps,
            final(self).initial_dt == old(self).initial_dt,
            final(self).last_dt == old(self).last_dt,
            final(self).last_dt_2 == old(self).last_dt_2,
            final(self).min_dt == old(self).min_dt,
            final(self).te_tolerance == old(self).te_tolerance,
    {
        self.root_finder.set_initial_guess(guess);
        let g = guess.data();
        {
            let p = self.root_finder.problem_mut();
            let d0 = p.last_solution_0.data_mut();
            copy_prefix(d0, g);
            let d1 = p.last_solution_1.data_mut();
            copy_prefix(d1, g);
        }
        let d2 = self.last_solution_2.data_mut();
        copy_prefix(d2, g);
    }

    pub fn with_min_dt(self, min_dt: T) -> (s: Self)
        ensures
            s.wf() == self.wf(),
            s.root_finder_spec() == self.root_finder_spec(),
            s.last_solution_2_seq() == self.last_solution_2_seq(),
            s.steps_spec() == self.steps_spec(),
            s.time_spec() == self.time_spec(),
            s.step_size_spec() == self.step_size_spec(),
            s.initial_dt_spec() == self.initial_dt_spec(),
            s.last_dt_spec() == self.last_dt_spec(),
            s.last_dt_2_spec() == self.last_dt_2_spec(),
            s.min_dt_spec() == min_dt,
            s.te_tolerance_spec() == self.te_tolerance_spec(),
    {
        let mut s = self;
        s.min_dt = min_dt;
        s
    }

    pub fn with_tolerance(self, tol: T) -> (s: Self)
        ensures
            s.wf() == self.wf(),
            s.root_finder_spec() == self.root_finder_spec(),
            s.last_solution_2_seq() == self.last_solution_2_seq(),
            s.steps_spec() == self.steps_spec(),
            s.time_spec() == self.time_spec(),
            s.step_size_spec() == self.step_size_spec(),
            s.initial_dt_spec() == self.initial_dt_spec(),
            s.last_dt_spec() == self.last_dt_spec(),
            s.last_dt_2_spec() == self.last_dt_2_spec(),
            s.min_dt_spec() == self.min_dt_spec(),
            s.te_tolerance_spec() == tol,
    {
        let mut s = self;
        s.te_tolerance = tol;
        s
    }

    fn bdf_d0(x: T) -> (r: T)
        ensures
            r == bdf_d0_spec(x),
    {
        T::one().float_add(T::two().float_mul(x)).float_div(T::one().float_add(x))
    }

    fn bdf_d1(x: T) -> (r: T)
        ensures
            r == bdf_d1_spec(x),
    {
        x.float_neg().float_div(T::one().float_add(x))
    }

    /// Solves the implicit equation of a step of size `dt` from time `t`, with the
    /// variable-step BDF-2 weights of the ratio `dt / last_dt` and `f` taken at the
    /// new time `t + dt`, starting from the current solution.
    fn step_backward(&mut self) -> (r: Result<(), Bdf2Error<F::Error>>)
        requires
            old(self).wf(),
            old(self).root_finder.problem_spec().dim() > 0,
        ensures
            final(self).wf(),
            final(self).last_solution_2 == old(self).last_solution_2,
            final(self).t == old(self).t,
            final(self).dt == old(self).dt,
            final(self).n_steps == old(self).n_steps,
            final(self).initial_dt == old(self).initial_dt,
            final(self).last_dt == old(self).last_dt,
            final(self).last_dt_2 == old(self).last_dt_2,
            final(self).min_dt == old(self).min_dt,
            final(self).te_tolerance == old(self).te_tolerance,
            ({
                let p = final(self).root_finder.problem_spec();
                let q = old(self).root_finder.problem_spec();
                let rk = old(self).dt.div_spec(old(self).last_dt);
                &&& p.ode_spec() == q.ode_spec()
                &&& p.last_solution_0_seq() == q.last_solution_0_seq()
                &&& p.last_solution_1_seq() == q.last_solution_1_seq()
                &&& p.coefficients() == bdf2_weights(rk)
                &&& p.time_spec() == old(self).t.add_spec(old(self).dt)
                &&& p.dt_spec() == old(self).dt
            }),
            ({
                let rf = final(self).root_finder;
                match r {
                    Ok(()) => rf.residual_norm_spec().lt_spec(rf.tolerance_spec()),
                    Err(e) => newton_failure(rf, e),
                }
            }),
    {
        let h = self.dt;
        let rk = self.dt.float_div(self.last_dt);
        let bd0 = Self::bdf_d0(rk);
        let bd1 = Self::bdf_d1(rk);
        let c0 = bd0;
        let c1 = T::one().float_add(rk).float_neg();
        let c2 = rk.float_neg().float_mul(bd1);
        {
            let p = self.root_finder.problem_mut();
            p.c0 = c0;
            p.c1 = c1;
            p.c2 = c2;
            p.time = self.t.float_add(h);
            p.dt = h;
        }
        // solve the problem
        match self.root_finder.solve() {
            Ok(_) => Ok(()),
            Err(e) => match e {
                NewtonSolverError::LinalgError(e) => Err(Bdf2Error::Linalg(e)),
                NewtonSolverError::MaxIterations => Err(Bdf2Error::Bdf2MaxIterations),
                NewtonSolverError::ProblemError(e) => Err(Bdf2Error::Ode(e)),
            },
        }
    }

    /// The estimate of the local truncation error of the solution just computed.
    fn truncation_error(&self) -> (emax: T)
        requires
            self.wf(),
        ensures
            emax == bdf2_error(
                self.root_finder.solution_seq(),
                self.root_finder.problem_spec().last_solution_0_seq(),
                self.root_finder.problem_spec().last_solution_1_seq(),
                self.last_solution_2.elems(),
                self.dt,
                self.last_dt,
                self.last_dt_2,
                self.root_finder.problem_spec().dim(),
            ),
    {
        let xv = self.root_finder.solution();
        let x = xv.data();
        let p = self.root_finder.problem();
        let y0 = p.last_solution_0.data();
        let y1 = p.last_solution_1.data();
        let y2 = self.last_solution_2.data();
        let n = x.len();
        let mut emax = T::zero();
        let mut i: usize = 0;
        while i < n
            invariant
                n == x@.len(),
                n == y0@.len(),
                n == y1@.len(),
                n == y2@.len(),
                i <= n,
                emax == bdf2_error(x@, y0@, y1@, y2@, self.dt, self.last_dt, self.last_dt_2, i as nat),
            decreases n - i,
        {
            // approximate the truncation error as the difference between euler and Bdf2
            let dy0 = x[i].float_sub(y0[i]).float_div(self.dt);
            let dy1 = y0[i].float_sub(y1[i]).float_div(self.last_dt);
            let dy2 = y1[i].float_sub(y2[i]).float_div(self.last_dt);
            let dt0 = self.dt.float_add(self.last_dt).float_mul(T::half());
            let dt1 = self.last_dt.float_add(self.last_dt_2).float_mul(T::half());
            let dyy0 = dy0.float_sub(dy1).float_div(dt0);
            let dyy1 = dy1.float_sub(dy2).float_div(dt1);
            let dyyy = dyy0.float_sub(dyy1).float_div(dt0.float_add(dt1).float_mul(T::half()));
            let e = dyyy.float_abs().float_mul(self.dt.float_powi(3));
            emax = emax.float_max(e.float_abs());
            i = i + 1;
        }
        emax
    }
}

impl<T, F: Ode<T>> Bdf2<T, F> where T: FloatNumber {
    /// One attempt at a step: solve the implicit equation, estimate the error,
    /// adapt the step size, and accept the step when the error is within the
    /// tolerance (or the step size is at its minimum).
    pub fn step_attempt(&mut self) -> (r: Bdf2Attempt<F::Error>)
        requires
            old(self).wf(),
            old(self).dim() > 0,
            old(self).steps_spec() < usize::MAX,
        ensures
            final(self).wf(),
            final(self).dim() == old(self).dim(),
            final(self).sub_problem().ode_spec() == old(self).sub_problem().ode_spec(),
            final(self).initial_dt_spec() == old(self).initial_dt_spec(),
            final(self).min_dt_spec() == old(self).min_dt_spec(),
            final(self).te_tolerance_spec() == old(self).te_tolerance_spec(),
            match r {
                Bdf2Attempt::Stalled(e) => {
                    &&& newton_failure(final(self).root_finder_spec(), e)
                    &&& old(self).step_size_spec().lt_spec(T::epsilon_spec().mul_spec(T::epsilon_spec()))
                    &&& final(self).step_size_spec() == old(self).step_size_spec()
                    &&& final(self).time_spec() == old(self).time_spec()
                    &&& final(self).steps_spec() == old(self).steps_spec()
                },
                Bdf2Attempt::Failed(e) => {
                    &&& newton_failure(final(self).root_finder_spec(), e)
                    &&& !old(self).step_size_spec().lt_spec(T::epsilon_spec().mul_spec(T::epsilon_spec()))
                    &&& final(self).step_size_spec() == old(self).step_size_spec().div_spec(T::two_spec())
                    &&& final(self).time_spec() == old(self).time_spec()
                    &&& final(self).steps_spec() == old(self).steps_spec()
                    &&& final(self).last_dt_spec() == if old(self).steps_spec() == 0 {
                        final(self).step_size_spec()
                    } else {
                        old(self).last_dt_spec()
                    }
                    &&& final(self).last_dt_2_spec() == if old(self).steps_spec() == 0 {
                        final(self).step_size_spec()
                    } else {
                        old(self).last_dt_2_spec()
                    }
                    &&& final(self).sub_problem().last_solution_0_seq() == old(self).sub_problem().last_solution_0_seq()
                    &&& final(self).sub_problem().last_solution_1_seq() == old(self).sub_problem().last_solution_1_seq()
                    &&& final(self).last_solution_2_seq() == old(self).last_solution_2_seq()
                },
                _ => ({
                    let x = final(self).solution_seq();
                    let p = old(self).sub_problem();
                    let truncmax = bdf2_error(
                        x,
                        p.last_solution_0_seq(),
                        p.last_solution_1_seq(),
                        old(self).last_solution_2_seq(),
                        old(self).step_size_spec(),
                        old(self).last_dt_spec(),
                        old(self).last_dt_2_spec(),
                        old(self).dim(),
                    );
                    let hnew = bdf2_next_dt(old(self).step_size_spec(), old(self).te_tolerance_spec(), truncmax);
                    let at_min = hnew.lt_spec(old(self).min_dt_spec());
                    let last_dt = if old(self).steps_spec() == 0 { hnew } else { old(self).last_dt_spec() };
                    &&& final(self).root_finder_spec().residual_norm_spec().lt_spec(
                        final(self).root_finder_spec().tolerance_spec(),
                    )
                    &&& final(self).step_size_spec() == if at_min { old(self).min_dt_spec() } else { hnew }
                    &&& (r is Rejected <==> old(self).te_tolerance_spec().lt_spec(truncmax) && !at_min)
                    &&& r is Rejected ==> {
                        &&& final(self).time_spec() == old(self).time_spec()
                        &&& final(self).steps_spec() == old(self).steps_spec()
                        &&& final(self).last_dt_spec() == last_dt
                        &&& final(self).last_dt_2_spec() == old(self).last_dt_2_spec()
                        &&& final(self).sub_problem().last_solution_0_seq() == p.last_solution_0_seq()
                        &&& final(self).sub_problem().last_solution_1_seq() == p.last_solution_1_seq()
                        &&& final(self).last_solution_2_seq() == old(self).last_solution_2_seq()
                    }
                    &&& r is Accepted ==> {
                        &&& final(self).time_spec() == old(self).time_spec().add_spec(old(self).step_size_spec())
                        &&& final(self).steps_spec() == old(self).steps_spec() + 1
                        &&& final(self).last_dt_spec() == old(self).step_size_spec()
                        &&& final(self).last_dt_2_spec() == last_dt
                        &&& final(self).sub_problem().last_solution_0_seq() == x
                        &&& final(self).sub_problem().last_solution_1_seq() == p.last_solution_0_seq()
                        &&& final(self).last_solution_2_seq() == p.last_solution_1_seq()
                    }
                }),
            },
    {
        match self.step_backward() {
            Ok(()) => {},
            Err(e) => {
                if self.dt.float_lt(T::epsilon().float_mul(T::epsilon())) {
                    return Bdf2Attempt::Stalled(e);
                }
                self.dt = self.dt.float_div(T::two());
                if self.n_steps == 0 {
                    self.last_dt = self.dt;
                    self.last_dt_2 = self.dt;
                }
                return Bdf2Attempt::Failed(e);
            },
        }
        let truncmax = self.truncation_error();
        let epsilon = self.te_tolerance;
        let hnew = T::fraction(9, 10).float_mul(self.dt).float_mul(
            epsilon.float_div(truncmax.float_max(T::epsilon()).float_min(T::float_from_i32(100000))).float_powf(
                T::fraction(1, 3),
            ).float_min(T::fraction(12, 10)),
        );
        let dtlast = self.dt;
        self.dt = hnew;
        if self.n_steps == 0 {
            self.last_dt = hnew;
        }
        let mut ignore_terror = false;
        if self.dt.float_lt(self.min_dt) {
            self.dt = self.min_dt;
            ignore_terror = true;
        }
        if epsilon.float_lt(truncmax) && !ignore_terror {
            // reject step and do it again
            return Bdf2Attempt::Rejected;
        }
        // accept the step
        self.n_steps = self.n_steps + 1;
        self.last_dt_2 = self.last_dt;
        self.last_dt = dtlast;
        self.t = self.t.float_add(dtlast);
        self.shift_history();
        Bdf2Attempt::Accepted
    }

    /// `y2 = y1`, `y1 = y0`, `y0 = solution`.
    fn shift_history(&mut self)
        requires
            old(self).wf(),
        ensures
            final(self).wf(),
            final(self).root_finder.solution_seq() == old(self).root_finder.solution_seq(),
            final(self).root_finder.size_spec() == old(self).root_finder.size_spec(),
            final(self).root_finder.residual_norm_spec() == old(self).root_finder.residual_norm_spec(),
            final(self).root_finder.tolerance_spec() == old(self).root_finder.tolerance_spec(),
            final(self).root_finder.problem_spec().ode_spec() == old(self).root_finder.problem_spec().ode_spec(),
            final(self).root_finder.problem_spec().last_solution_0_seq() == old(self).root_finder.solution_seq(),
            final(self).root_finder.problem_spec().last_solution_1_seq() == old(
                self,
            ).root_finder.problem_spec().last_solution_0_seq(),
            final(self).last_solution_2.elems() == old(self).root_finder.problem_spec().last_solution_1_seq(),
            final(self).t == old(self).t,
            final(self).dt == old(self).dt,
            final(self).n_steps == old(self).n_steps,
            final(self).initial_dt == old(self).initial_dt,
            final(self).last_dt == old(self).last_dt,
            final(self).last_dt_2 == old(self).last_dt_2,
            final(self).min_dt == old(self).min_dt,
            final(self).te_tolerance == old(self).te_tolerance,
    {
        {
            let p = self.root_finder.problem();
            let d2 = self.last_solution_2.data_mut();
            copy_prefix(d2, p.last_solution_1.data());
        }
        {
            let p = self.root_finder.problem_mut();
            let d1 = p.last_solution_1.data_mut();
            copy_prefix(d1, p.last_solution_0.data());
        }
        let n = self.root_finder.len();
        let mut i: usize = 0;
        while i < n
            invariant
                self.wf(),
                n == self.root_finder.size_spec(),
                self.root_finder.solution_seq() == old(self).root_finder.solution_seq(),
                self.root_finder.residual_norm_spec() == old(self).root_finder.residual_norm_spec(),
                self.root_finder.tolerance_spec() == old(self).root_finder.tolerance_spec(),
                self.root_finder.problem_spec().ode_spec() == old(self).root_finder.problem_spec().ode_spec(),
                self.root_finder.problem_spec().last_solution_1_seq() == old(
                    self,
                ).root_finder.problem_spec().last_solution_0_seq(),
                self.last_solution_2.elems() == old(self).root_finder.problem_spec().last_solution_1_seq(),
                self.t == old(self).t,
                self.dt == old(self).dt,
                self.n_steps == old(self).n_steps,
                self.initial_dt == old(self).initial_dt,
                self.last_dt == old(self).last_dt,
                self.last_dt_2 == old(self).last_dt_2,
                self.min_dt == old(self).min_dt,
                self.te_tolerance == old(self).te_tolerance,
                i <= n,
                forall|k: int|
                    0 <= k < i ==> #[trigger] self.root_finder.problem_spec().last_solution_0_seq()[k]
                        == self.root_finder.solution_seq()[k],
            decreases n - i,
        {
            let ghost before = self.root_finder.problem_spec().last_solution_0_seq();
            let xv = self.root_finder.solution();
            let v = xv.data()[i];
            assert(v == self.root_finder.solution_seq()[i as int]);
            let p = self.root_finder.problem_mut();
            let d0 = p.last_solution_0.data_mut();
            d0[i] = v;
            assert(self.root_finder.problem_spec().last_solution_0_seq() == before.update(i as int, v));
            i = i + 1;
        }
        proof {
            assert(self.root_finder.problem_spec().last_solution_0_seq() =~= self.root_finder.solution_seq());
        }
    }
}

/// `dst[i] = src[i]` for every entry of `dst`.
fn copy_prefix<T: Copy>(dst: &mut [T], src: &[T])
    requires
        src@.len() >= old(dst)@.len(),
    ensures
        final(dst)@ == src@.take(old(dst)@.len() as int),
{
    let n = dst.len();
    let mut i: usize = 0;
    while i < n
        invariant
            n == dst@.len(),
            n <= src@.len(),
            i <= n,
            forall|k: int| 0 <= k < i ==> #[trigger] dst@[k] == src@[k],
        decreases n - i,
    {
        dst[i] = src[i];
        i = i + 1;
    }
    proof {
        assert(dst@ =~= src@.take(n as int));
    }
}

impl<T, F: Ode<T>> Solver<T> for Bdf2<T, F> where T: FloatNumber {
    type Error = F::Error;

    closed spec fn well_formed(&self) -> bool {
        self.wf()
    }

    closed spec fn dim(&self) -> nat {
        self.root_finder.problem_spec().dim()
    }

    closed spec fn solution_seq(&self) -> Seq<T> {
        self.root_finder.solution_seq()
    }

    closed spec fn time_spec(&self) -> T {
        self.t
    }

    closed spec fn steps_spec(&self) -> usize {
        self.n_steps
    }

    closed spec fn step_size_spec(&self) -> T {
        self.dt
    }

    fn solution<'a>(&'a self) -> (v: VectorView<'a, T>) {
        self.root_finder.solution()
    }

    fn time(&self) -> (t: T) {
        self.t
    }

    fn step_size(&self) -> (dt: T) {
        self.dt
    }

    fn set_step_size(&mut self, dt: T) {
        self.dt = dt;
    }

    fn steps(&self) -> (n: usize) {
        self.n_steps
    }

    /// Makes the solver work as if it had just been created: the solution and the
    /// time, the step sizes back at the initial one, the previous solutions at the
    /// initial solution, no step taken, and the Newton solver's damping and
    /// iteration count at their initial values.
    fn reinit(&mut self, initial_solution: &impl Vector<T>, time: T)
        ensures
            final(self).step_size_spec() == old(self).initial_dt_spec(),
            final(self).last_dt_spec() == old(self).initial_dt_spec(),
            final(self).last_dt_2_spec() == old(self).initial_dt_spec(),
            final(self).initial_dt_spec() == old(self).initial_dt_spec(),
            final(self).sub_problem().last_solution_0_seq() == initial_solution.elems().take(old(self).dim() as int),
            final(self).sub_problem().last_solution_1_seq() == initial_solution.elems().take(old(self).dim() as int),
            final(self).last_solution_2_seq() == initial_solution.elems().take(old(self).dim() as int),
            final(self).root_finder_spec().stab_spec() == T::one_spec(),
            final(self).root_finder_spec().niters_spec() == 0,
            final(self).sub_problem().ode_spec() == old(self).sub_problem().ode_spec(),
            final(self).min_dt_spec() == old(self).min_dt_spec(),
            final(self).te_tolerance_spec() == old(self).te_tolerance_spec(),
    {
        self.t = time;
        self.dt = self.initial_dt;
        self.last_dt = self.dt;
        self.last_dt_2 = self.dt;
        self.n_steps = 0;
        self.load(initial_solution);
        self.root_finder.reset_damping();
    }
}

} // verus!
