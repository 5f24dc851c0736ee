//! Minimization of multivariate cost functions.
use vstd::prelude::*;

use std::marker::PhantomData;

use crate::linalg::factorize::lu::lemma_rc;
use crate::linalg::matrix::{column_of, lemma_row_major_index, lemma_row_major_unique, row_of, sum_products, DynamicMatrix, MatrixMut};
use crate::linalg::vector::{DynamicVector, ScratchVector, Vector, VectorMut};
use crate::num_traits::FloatNumber;
use crate::optimize::root::{fd_scale, fd_step, sum_squares, RootProblem};
use crate::linalg::vector::VectorView;
use crate::linalg::Matrix;

verus! {

/// Entries `0..m` of the finite difference gradient of `cost` at `y`, given
/// `c0 = cost(y)`: entry `i` is `(cost(y + dy e_i) - c0) / dy` with
/// `dy = fd_step(y[i], scale)`. The error of the first failing evaluation otherwise.
pub open spec fn fd_gradient_entries<T: FloatNumber, E>(
    cost: spec_fn(Seq<T>) -> Result<T, E>,
    y: Seq<T>,
    c0: T,
    scale: T,
    m: nat,
) -> Result<Seq<T>, E>
    decreases m,
{
    if m == 0 {
        Ok(Seq::empty())
    } else {
        match fd_gradient_entries(cost, y, c0, scale, (m - 1) as nat) {
            Err(e) => Err(e),
            Ok(g) => {
                let i = m - 1;
                let dy = fd_step(y[i], scale);
                match cost(y.update(i, y[i].add_spec(dy))) {
                    Err(e) => Err(e),
                    Ok(c1) => Ok(g.push(c1.sub_spec(c0).div_spec(dy))),
                }
            },
        }
    }
}

/// The finite difference gradient of `cost` at `y` over `n` variables.
pub open spec fn fd_gradient<T: FloatNumber, E>(cost: spec_fn(Seq<T>) -> Result<T, E>, y: Seq<T>, n: nat, scale: T) -> Result<Seq<T>, E> {
    match cost(y) {
        Err(e) => Err(e),
        Ok(c0) => fd_gradient_entries(cost, y, c0, scale, n),
    }
}

pub proof fn lemma_fd_gradient_err<T: FloatNumber, E>(
    cost: spec_fn(Seq<T>) -> Result<T, E>,
    y: Seq<T>,
    c0: T,
    scale: T,
    a: nat,
    b: nat,
)
    requires
        a <= b,
        fd_gradient_entries(cost, y, c0, scale, a) is Err,
    ensures
        fd_gradient_entries(cost, y, c0, scale, b) == fd_gradient_entries(cost, y, c0, scale, a),
    decreases b - a,
{
    if a < b {
        lemma_fd_gradient_err(cost, y, c0, scale, a, (b - 1) as nat);
    }
}

/// The finite difference second derivative of `cost` at `y` in variables `i`, `j`
/// (`i <= j`), given `c00 = cost(y)`: with steps `dyi`, `dyj`,
/// `(cost(y + dyi e_i + dyj e_j) - cost(y + dyi e_i) - cost(y + dyj e_j) + c00) / (dyi dyj)`,
/// the three costs evaluated in that order (the error of the first failing one otherwise).
pub open spec fn fd_hessian_entry<T: FloatNumber, E>(
    cost: spec_fn(Seq<T>) -> Result<T, E>,
    y: Seq<T>,
    c00: T,
    scale: T,
    i: int,
    j: int,
) -> Result<T, E> {
    let dyi = fd_step(y[i], scale);
    let dyj = fd_step(y[j], scale);
    match cost(y.update(i, y[i].add_spec(dyi))) {
        Err(e) => Err(e),
        Ok(cpi) => match cost(y.update(j, y[j].add_spec(dyj))) {
            Err(e) => Err(e),
            Ok(cpj) => {
                let yi = y.update(i, y[i].add_spec(dyi));
                let yij = yi.update(j, yi[j].add_spec(dyj));
                match cost(yij) {
                    Err(e) => Err(e),
                    Ok(cpij) => Ok(cpij.sub_spec(cpi).sub_spec(cpj).add_spec(c00).div_spec(dyi.mul_spec(dyj))),
                }
            },
        },
    }
}

/// What the finite difference Hessian of `cost` at `y` over `n` variables gives:
/// the error of the cost at `y`, else, walking the upper triangle row by row, the
/// first failing entry's error, else success with each entry `(i, j)` of the
/// row-major `h` (and its mirror `(j, i)`) the value of `fd_hessian_entry`.
pub open spec fn fd_hessian_outcome<T: FloatNumber, E>(
    cost: spec_fn(Seq<T>) -> Result<T, E>,
    y: Seq<T>,
    n: int,
    r: Result<(), E>,
    h: Seq<T>,
) -> bool {
    match cost(y) {
        Err(e) => r == Err::<(), E>(e),
        Ok(c00) => ({
            &&& (r is Ok <==> forall|i: int, j: int|
                0 <= i <= j < n ==> #[trigger] fd_hessian_entry(cost, y, c00, fd_scale::<T>(), i, j) is Ok)
            &&& match r {
                Ok(()) => forall|i: int, j: int|
                    0 <= i <= j < n ==> #[trigger] fd_hessian_entry(cost, y, c00, fd_scale::<T>(), i, j)
                        == Ok::<T, E>(h[i * n + j]) && h[j * n + i] == h[i * n + j],
                Err(e) => exists|i: int, j: int|
                    0 <= i <= j < n && #[trigger] fd_hessian_entry(cost, y, c00, fd_scale::<T>(), i, j)
                        == Err::<T, E>(e) && forall|a: int, b: int|
                        0 <= a <= b < n && pair_before(a, b, i, j) ==> #[trigger] fd_hessian_entry(
                            cost,
                            y,
                            c00,
                            fd_scale::<T>(),
                            a,
                            b,
                        ) is Ok,
            }
        }),
    }
}

/// `(a, b)` comes before `(i, j)` when the upper triangle is walked row by row.
pub open spec fn pair_before(a: int, b: int, i: int, j: int) -> bool {
    a < i || (a == i && b < j)
}

pub trait MinimizationProblem<T: FloatNumber> {
    type Error;

    /// Number of variables.
    open spec fn dim(&self) -> nat {
        vstd::pervasive::arbitrary()
    }

    /// The cost at `x`, or the error met computing it.
    open spec fn cost_at(&self, x: Seq<T>) -> Result<T, Self::Error> {
        vstd::pervasive::arbitrary()
    }

    /// Whether `gradient` computes the forward difference gradient of the cost,
    /// as the provided one does.
    open spec fn gradient_is_fd(&self) -> bool {
        true
    }

    /// Whether `hessian` computes the finite difference Hessian of the cost, as
    /// the provided one does.
    open spec fn hessian_is_fd(&self) -> bool {
        true
    }

    fn size(&self) -> (n: usize)
        ensures
            n == self.dim(),
    ;

    // the cost function that must be minimized
    fn cost(&self, solution: &impl Vector<T>) -> (r: Result<T, Self::Error>)
        requires
            solution.elems().len() == self.dim(),
        ensures
            r == self.cost_at(solution.elems()),
    ;

    // the gradient of the cost function, by default a finite difference approach
    fn gradient(&self, gradient: &mut impl VectorMut<T>, solution: &impl Vector<T>) -> (r: Result<(), Self::Error>)
        requires
            old(gradient).elems().len() == self.dim(),
            solution.elems().len() == self.dim(),
        ensures
            final(gradient).elems().len() == old(gradient).elems().len(),
            self.gradient_is_fd() ==> match fd_gradient(
                |z: Seq<T>| self.cost_at(z),
                solution.elems(),
                self.dim(),
                fd_scale::<T>(),
            ) {
                Ok(g) => r is Ok && final(gradient).elems() == g,
                Err(e) => r == Err::<(), Self::Error>(e),
            },
    {
        let y = solution.data();
        let n = self.size();
        let ghost nn = n as nat;
        let ghost cost_fn = |z: Seq<T>| self.cost_at(z);
        let mut yd = ScratchVector::new(T::zero(), n);
        {
            let d = yd.data_mut();
            let mut i: usize = 0;
            while i < n
                invariant
                    n == y@.len(),
                    d@.len() == n,
                    i <= n,
                    forall|k: int| 0 <= k < i ==> #[trigger] d@[k] == y@[k],
                decreases n - i,
            {
                d[i] = y[i];
                i = i + 1;
            }
            proof {
                assert(d@ =~= y@);
            }
        }
        // base f
        let c0 = match self.cost(solution) {
            Ok(c) => c,
            Err(e) => {
                return Err(e);
            },
        };
        let scale = T::epsilon().float_sqrt().float_mul(T::float_from_i32(100));
        let gd = gradient.data_mut();
        let ghost mut g: Seq<T> = Seq::empty();
        let mut i: usize = 0;
        #[verifier::loop_isolation(false)]
        while i < n
            invariant
                n == nn,
                nn == self.dim(),
                y@ == solution.elems(),
                y@.len() == n,
                yd.elems() == y@,
                gd@.len() == n,
                self.cost_at(y@) == Ok::<T, Self::Error>(c0),
                scale == fd_scale::<T>(),
                cost_fn == (|z: Seq<T>| self.cost_at(z)),
                i <= n,
                fd_gradient_entries(cost_fn, y@, c0, scale, i as nat) == Ok::<Seq<T>, Self::Error>(g),
                g.len() == i,
                forall|k: int| 0 <= k < i ==> #[trigger] gd@[k] == g[k],
            decreases n - i,
        {
            let y0 = y[i];
            let dy = scale.float_max(y0.float_abs().float_mul(scale));
            let d = yd.data_mut();
            d[i] = y0.float_add(dy);
            let ghost pt = y@.update(i as int, y0.add_spec(dy));
            proof {
                assert(yd.elems() =~= pt);
                assert(cost_fn(pt) == self.cost_at(pt));
                assert(dy == fd_step(y@[i as int], scale));
            }
            let c1 = match self.cost(&yd) {
                Ok(c) => c,
                Err(e) => {
                    proof {
                        lemma_fd_gradient_err(cost_fn, y@, c0, scale, (i + 1) as nat, nn);
                    }
                    return Err(e);
                },
            };
            gd[i] = c1.float_sub(c0).float_div(dy);
            proof {
                g = g.push(c1.sub_spec(c0).div_spec(dy));
            }
            let d = yd.data_mut();
            d[i] = y0;
            proof {
                assert(yd.elems() =~= y@);
            }
            i = i + 1;
        }
        proof {
            assert(gd@ =~= g);
        }
        Ok(())
    }

    // hessian matrix of the problem, by default uses a finite difference approach
    fn hessian(&self, hessian: &mut impl MatrixMut<T>, solution: &impl Vector<T>) -> (r: Result<(), Self::Error>)
        requires
            old(hessian).has_shape(),
            old(hessian).nrows() == self.dim(),
            old(hessian).ncols() == self.dim(),
            solution.elems().len() == self.dim(),
        ensures
            final(hessian).elems().len() == old(hessian).elems().len(),
            final(hessian).has_shape(),
            final(hessian).nrows() == old(hessian).nrows(),
            final(hessian).ncols() == old(hessian).ncols(),
            self.hessian_is_fd() ==> fd_hessian_outcome(
                |z: Seq<T>| self.cost_at(z),
                solution.elems(),
                self.dim() as int,
                r,
                final(hessian).elems(),
            ),
    {
        let y = solution.data();
        let n = self.size();
        let ghost nn = n as int;
        let ghost cost_fn = |z: Seq<T>| self.cost_at(z);
        let mut yd = ScratchVector::new(T::zero(), n);
        {
            let d = yd.data_mut();
            let mut i: usize = 0;
            while i < n
                invariant
                    n == y@.len(),
                    d@.len() == n,
                    i <= n,
                    forall|k: int| 0 <= k < i ==> #[trigger] d@[k] == y@[k],
                decreases n - i,
            {
                d[i] = y[i];
                i = i + 1;
            }
            proof {
                assert(d@ =~= y@);
            }
        }
        // base f
        let c00 = match self.cost(solution) {
            Ok(c) => c,
            Err(e) => {
                return Err(e);
            },
        };
        let scale = T::epsilon().float_sqrt().float_mul(T::float_from_i32(100));
        let _s = hessian.shape();
        let hd = hessian.data_mut();
        let hlen = hd.len();
        proof {
            assert(nn * nn <= hd@.len());
        }
        let mut i: usize = 0;
        #[verifier::loop_isolation(false)]
        while i < n
            invariant
                n == nn,
                nn == self.dim(),
                y@ == solution.elems(),
                y@.len() == n,
                yd.elems() == y@,
                hlen == hd@.len(),
                nn * nn <= hd@.len(),
                hd@.len() == old(hessian).elems().len(),
                self.cost_at(y@) == Ok::<T, Self::Error>(c00),
                scale == fd_scale::<T>(),
                cost_fn == (|z: Seq<T>| self.cost_at(z)),
                i <= n,
                forall|a: int, b: int|
                    0 <= a <= b < n && pair_before(a, b, i as int, i as int) ==> #[trigger] fd_hessian_entry(
                        cost_fn,
                        y@,
                        c00,
                        scale,
                        a,
                        b,
                    ) == Ok::<T, Self::Error>(hd@[a * nn + b]) && hd@[b * nn + a] == hd@[a * nn + b],
            decreases n - i,
        {
            let mut j: usize = i;
            #[verifier::loop_isolation(false)]
            while j < n
                invariant
                    n == nn,
                    nn == self.dim(),
                    y@ == solution.elems(),
                    y@.len() == n,
                    yd.elems() == y@,
                    hlen == hd@.len(),
                    nn * nn <= hd@.len(),
                    hd@.len() == old(hessian).elems().len(),
                    self.cost_at(y@) == Ok::<T, Self::Error>(c00),
                    scale == fd_scale::<T>(),
                    cost_fn == (|z: Seq<T>| self.cost_at(z)),
                    i < n,
                    i <= j <= n,
                    forall|a: int, b: int|
                        0 <= a <= b < n && pair_before(a, b, i as int, j as int) ==> #[trigger] fd_hessian_entry(
                            cost_fn,
                            y@,
                            c00,
                            scale,
                            a,
                            b,
                        ) == Ok::<T, Self::Error>(hd@[a * nn + b]) && hd@[b * nn + a] == hd@[a * nn + b],
                decreases n - j,
            {
                let ghost ii = i as int;
                let ghost jj = j as int;
                let y0i = y[i];
                let dyi = scale.float_max(y0i.float_abs().float_mul(scale));
                let d = yd.data_mut();
                d[i] = y0i.float_add(dyi);
                let ghost pi = y@.update(ii, y0i.add_spec(dyi));
                proof {
                    assert(yd.elems() =~= pi);
                    assert(cost_fn(pi) == self.cost_at(pi));
                    assert(dyi == fd_step(y@[ii], scale));
                }
                let cpi = match self.cost(&yd) {
                    Ok(c) => c,
                    Err(e) => {
                        proof {
                            assert(fd_hessian_entry(cost_fn, y@, c00, scale, ii, jj) == Err::<T, Self::Error>(e));
                        }
                        return Err(e);
                    },
                };
                let d = yd.data_mut();
                d[i] = y0i;
                let y0j = y[j];
                let dyj = scale.float_max(y0j.float_abs().float_mul(scale));
                let d = yd.data_mut();
                d[j] = y0j.float_add(dyj);
                let ghost pj = y@.update(jj, y0j.add_spec(dyj));
                proof {
                    assert(yd.elems() =~= pj);
                    assert(cost_fn(pj) == self.cost_at(pj));
                    assert(dyj == fd_step(y@[jj], scale));
                }
                let cpj = match self.cost(&yd) {
                    Ok(c) => c,
                    Err(e) => {
                        proof {
                            assert(fd_hessian_entry(cost_fn, y@, c00, scale, ii, jj) == Err::<T, Self::Error>(e));
                        }
                        return Err(e);
                    },
                };
                let d = yd.data_mut();
                d[j] = y0j;
                let d = yd.data_mut();
                d[i] = d[i].float_add(dyi);
                let d = yd.data_mut();
                d[j] = d[j].float_add(dyj);
                let ghost pij = pi.update(jj, pi[jj].add_spec(dyj));
                proof {
                    assert(yd.elems() =~= pij);
                    assert(cost_fn(pij) == self.cost_at(pij));
                }
                let cpij = match self.cost(&yd) {
                    Ok(c) => c,
                    Err(e) => {
                        proof {
                            assert(fd_hessian_entry(cost_fn, y@, c00, scale, ii, jj) == Err::<T, Self::Error>(e));
                        }
                        return Err(e);
                    },
                };
                let d = yd.data_mut();
                d[i] = y0i;
                let d = yd.data_mut();
                d[j] = y0j;
                proof {
                    assert(yd.elems() =~= y@);
                    lemma_row_major_index(ii, jj, nn, nn);
                    lemma_row_major_index(jj, ii, nn, nn);
                }
                let v = cpij.float_sub(cpi).float_sub(cpj).float_add(c00).float_div(dyi.float_mul(dyj));
                proof {
                    assert(fd_hessian_entry(cost_fn, y@, c00, scale, ii, jj) == Ok::<T, Self::Error>(v));
                }
                let k1 = i * n + j;
                let k2 = j * n + i;
                hd[k1] = v;
                hd[k2] = hd[k1];
                proof {
                    assert forall|a: int, b: int|
                        0 <= a <= b < n && pair_before(a, b, ii, jj + 1) implies #[trigger] fd_hessian_entry(
                            cost_fn,
                            y@,
                            c00,
                            scale,
                            a,
                            b,
                        ) == Ok::<T, Self::Error>(hd@[a * nn + b]) && hd@[b * nn + a] == hd@[a * nn + b] by {
                        lemma_row_major_index(a, b, nn, nn);
                        lemma_row_major_index(b, a, nn, nn);
                        if a * nn + b == k1 {
                            lemma_row_major_unique(a, b, ii, jj, nn);
                        }
                        if a * nn + b == k2 {
                            lemma_row_major_unique(a, b, jj, ii, nn);
                        }
                        if b * nn + a == k1 {
                            lemma_row_major_unique(b, a, ii, jj, nn);
                        }
                        if b * nn + a == k2 {
                            lemma_row_major_unique(b, a, jj, ii, nn);
                        }
                    }
                }
                j = j + 1;
            }
            i = i + 1;
        }
        Ok(())
    }
}

/// A minimization problem seen as the root problem of its gradient: the residual
/// is the gradient and the Jacobian the Hessian.
pub struct NewtonMinimizationProblem<T: FloatNumber, P> where P: MinimizationProblem<T> {
    problem: P,
    td: PhantomData<T>,
}

impl<T: FloatNumber, P: MinimizationProblem<T>> NewtonMinimizationProblem<T, P> {
    /// The wrapped problem.
    pub closed spec fn inner(&self) -> P {
        self.problem
    }

    pub fn new(problem: P) -> (s: Self)
        ensures
            s.inner() == problem,
    {
        Self { problem, td: PhantomData }
    }

    pub fn problem(&self) -> (p: &P)
        ensures
            *p == self.inner(),
    {
        &self.problem
    }
}

impl<T, F> RootProblem<T> for NewtonMinimizationProblem<T, F> where F: MinimizationProblem<T>, T: FloatNumber {
    type Error = F::Error;

    open spec fn dim(&self) -> nat {
        self.inner().dim()
    }

    /// The forward difference gradient of the cost, which the residual is when the
    /// wrapped problem computes its gradient so.
    open spec fn residual_at(&self, x: Seq<T>) -> Result<Seq<T>, Self::Error> {
        fd_gradient(|z: Seq<T>| self.inner().cost_at(z), x, self.inner().dim(), fd_scale::<T>())
    }

    open spec fn states_residual(&self) -> bool {
        self.inner().gradient_is_fd()
    }

    /// The Jacobian is not a difference quotient of the residual.
    open spec fn jacobian_is_fd(&self) -> bool {
        false
    }

    fn size(&self) -> (n: usize) {
        self.problem.size()
    }

    /// The gradient of the wrapped problem at the solution.
    fn residual(&self, residual: &mut impl VectorMut<T>, solution: &impl Vector<T>) -> (r: Result<(), Self::Error>) {
        self.problem.gradient(residual, solution)
    }

    /// The Hessian of the wrapped problem at the solution.
    fn jacobian(&self, jacobian: &mut impl MatrixMut<T>, solution: &impl Vector<T>) -> (r: Result<(), Self::Error>)
        ensures
            self.inner().hessian_is_fd() ==> fd_hessian_outcome(
                |z: Seq<T>| self.inner().cost_at(z),
                solution.elems(),
                self.dim() as int,
                r,
                final(jacobian).elems(),
            ),
    {
        self.problem.hessian(jacobian, solution)
    }
}

/// The step size after a gradient of norm `res` that followed one of norm
/// `last`: scaled by `step_decrease last / max(res, 1e-6)`, the factor kept within `[0.5, 1.5]`.
pub open spec fn gd_step_size<T: FloatNumber>(step_size: T, step_decrease: T, last: T, res: T) -> T {
    let factor = step_decrease.mul_spec(last).div_spec(res.max_spec(T::fraction_spec(1, 1000000))).min_spec(
        T::fraction_spec(15, 10),
    ).max_spec(T::fraction_spec(5, 10));
    step_size.mul_spec(factor)
}

/// A descent move shifts every unknown against its gradient entry: for the
/// moved point `y` of `x` along `g` with step `step` and ramp `ramp`, `y` has as
/// many entries as `x`, and each `y[i]` is `x[i] - g[i] step ramp`.
pub proof fn lemma_gd_move_moves_every_unknown<T: FloatNumber>(x: Seq<T>, g: Seq<T>, step: T, ramp: T)
    ensures
        gd_move(x, g, step, ramp).len() == x.len(),
        forall|i: int|
            0 <= i < x.len() ==> #[trigger] gd_move(x, g, step, ramp)[i] == x[i].sub_spec(
                g[i].mul_spec(step).mul_spec(ramp),
            ),
{
}

/// The ramp on the first ten steps: `(steps / 10)^2`, then 1.
pub open spec fn gd_ramp<T: FloatNumber>(steps: nat) -> T {
    if steps < 10 {
        T::fraction_spec(steps as i32, 10).powi_spec(2)
    } else {
        T::one_spec()
    }
}

/// `x - g step ramp`, entry by entry.
pub open spec fn gd_move<T: FloatNumber>(x: Seq<T>, g: Seq<T>, step: T, ramp: T) -> Seq<T> {
    Seq::new(x.len(), |i: int| x[i].sub_spec(g[i].mul_spec(step).mul_spec(ramp)))
}

/// The forward difference gradient of the cost of `p` at `x`: what the gradient
/// of a problem that keeps `gradient_is_fd` gives.
pub open spec fn fd_gradient_of<T: FloatNumber, P: MinimizationProblem<T>>(p: P, x: Seq<T>) -> Result<Seq<T>, P::Error> {
    fd_gradient(|z: Seq<T>| p.cost_at(z), x, p.dim(), fd_scale::<T>())
}

/// The iterates `xs` of gradient descent on `p`, the first step being step number
/// `start`, from the step size `ss0` and gradient norm `last0`, with the step
/// size decrease `dec`: step `k` takes the gradient `gs[k]` at `xs[k]` (the
/// forward difference gradient, for a problem whose gradient is that), adapts
/// the step size to `ss[k]` from the last two gradient norms, and moves to
/// `xs[k + 1] = xs[k] - gs[k] ss[k] ramp`.
pub open spec fn descent_iterates<T: FloatNumber, P: MinimizationProblem<T>>(
    p: P,
    xs: Seq<Seq<T>>,
    gs: Seq<Seq<T>>,
    ss: Seq<T>,
    start: nat,
    ss0: T,
    last0: T,
    dec: T,
) -> bool {
    &&& xs.len() == gs.len() + 1
    &&& ss.len() == gs.len()
    &&& forall|k: int|
        #![trigger gs[k]]
        0 <= k < gs.len() ==> {
            let res = sum_squares(gs[k]).sqrt_spec();
            let prev = if k == 0 { ss0 } else { ss[k - 1] };
            let last = if start + k == 0 {
                res
            } else if k == 0 {
                last0
            } else {
                sum_squares(gs[k - 1]).sqrt_spec()
            };
            &&& ss[k] == gd_step_size(prev, dec, last, res)
            &&& xs[k + 1] == gd_move(xs[k], gs[k], ss[k], gd_ramp::<T>((start + k) as nat))
            &&& p.gradient_is_fd() ==> fd_gradient_of(p, xs[k]) == Ok::<Seq<T>, P::Error>(gs[k])
        }
}

/// The stop test of the descent solvers after `steps` steps: the gradient norm
/// `res` is within the tolerance or is NaN, or the step count has reached `max_steps`.
pub open spec fn descent_stops<T: FloatNumber>(res: T, tol: T, steps: int, max_steps: int) -> bool {
    res.le_spec(tol) || !res.eq_spec(res) || steps >= max_steps
}

/// The gradient norms `hist` of the steps of a solve that started after `start`
/// steps: the stop test fails after each step but the last.
pub open spec fn descent_history<T: FloatNumber>(hist: Seq<T>, tol: T, start: int, max_steps: int) -> bool {
    forall|q: int| 0 <= q < hist.len() - 1 ==> !descent_stops(#[trigger] hist[q], tol, start + q + 1, max_steps)
}

// Solver which uses gradient descent instead of newton method
// usefull to find a rough estimate before using a newton type method
pub struct GradientDescentSolver<T, P> {
    problem: P,
    solution: DynamicVector<T>,
    gradient: DynamicVector<T>,
    pub step_size: T,
    last_residual: T,
    steps: usize,
    pub max_steps: usize,
    pub tolerance: T,
    pub step_decrease: T,
}

#[derive(Debug)]
pub struct MinimizationSolverResult<T> {
    iterations: usize,
    residual: T,
    cost: T,
}

impl<T> MinimizationSolverResult<T> {
    pub closed spec fn iterations_spec(&self) -> usize {
        self.iterations
    }

    /// Gradient norm at the last step.
    pub closed spec fn residual_spec(&self) -> T {
        self.residual
    }

    /// Cost at the solution found.
    pub closed spec fn cost_spec(&self) -> T {
        self.cost
    }
}

impl<T, P> GradientDescentSolver<T, P> where T: FloatNumber, P: MinimizationProblem<T> {
    pub closed spec fn problem_spec(&self) -> P {
        self.problem
    }

    pub closed spec fn solution_seq(&self) -> Seq<T> {
        self.solution.elems()
    }

    /// The gradient computed on the last step.
    pub closed spec fn gradient_seq(&self) -> Seq<T> {
        self.gradient.elems()
    }

    /// Gradient norm at the last step.
    pub closed spec fn last_residual_spec(&self) -> T {
        self.last_residual
    }

    pub closed spec fn steps_spec(&self) -> usize {
        self.steps
    }

    pub closed spec fn step_size_spec(&self) -> T {
        self.step_size
    }

    pub closed spec fn max_steps_spec(&self) -> usize {
        self.max_steps
    }

    pub closed spec fn tolerance_spec(&self) -> T {
        self.tolerance
    }

    pub closed spec fn step_decrease_spec(&self) -> T {
        self.step_decrease
    }

    /// Buffers sized for the problem.
    pub closed spec fn wf(&self) -> bool {
        &&& self.solution.elems().len() == self.problem.dim()
        &&& self.gradient.elems().len() == self.problem.dim()
    }

    pub fn new(problem: P) -> (s: Self)
        ensures
            s.wf(),
            s.problem_spec() == problem,
            s.solution_seq() == Seq::new(problem.dim(), |i: int| T::zero_spec()),
            s.step_size_spec() == T::fraction_spec(1, 1000),
            s.last_residual_spec() == T::one_spec(),
            s.steps_spec() == 0,
            s.max_steps_spec() == 10000,
            s.tolerance_spec() == T::epsilon_spec().sqrt_spec().mul_spec(T::from_i32_spec(1000)),
            s.step_decrease_spec() == T::fraction_spec(99, 100),
    {
        let size = problem.size();
        let solution = DynamicVector::new(T::zero(), size);
        let gradient = DynamicVector::new(T::zero(), size);
        let step_size = T::fraction(1, 1000);
        let tolerance = T::epsilon().float_sqrt().float_mul(T::float_from_i32(1000));
        let step_decrease = T::fraction(99, 100);
        Self {
            problem,
            solution,
            gradient,
            step_size,
            last_residual: T::one(),
            steps: 0,
            max_steps: 10000,
            tolerance,
            step_decrease,
        }
    }

    pub fn solution<'a>(&'a self) -> (v: VectorView<'a, T>)
        ensures
            v.entries() == self.solution_seq(),
    {
        self.solution.view()
    }

    /// Starts from the first `solution.len()` entries of `guess`.
    pub fn set_initial_guess(&mut self, guess: &impl Vector<T>)
        requires
            guess.elems().len() >= old(self).solution_seq().len(),
        ensures
            final(self).solution_seq() == guess.elems().take(old(self).solution_seq().len() as int),
            final(self).problem_spec() == old(self).problem_spec(),
            final(self).gradient_seq() == old(self).gradient_seq(),
            final(self).steps_spec() == old(self).steps_spec(),
            final(self).last_residual_spec() == old(self).last_residual_spec(),
            final(self).step_size_spec() == old(self).step_size_spec(),
            final(self).max_steps_spec() == old(self).max_steps_spec(),
            final(self).tolerance_spec() == old(self).tolerance_spec(),
            final(self).step_decrease_spec() == old(self).step_decrease_spec(),
            old(self).wf() ==> final(self).wf(),
    {
        let g = guess.data();
        let n = self.solution.len();
        let d = self.solution.data_mut();
        let mut i: usize = 0;
        while i < n
            invariant
                n == d@.len(),
                g@ == guess.elems(),
                g@.len() >= n,
                i <= n,
                forall|k: int| 0 <= k < i ==> #[trigger] d@[k] == g@[k],
            decreases n - i,
        {
            d[i] = g[i];
            i = i + 1;
        }
        proof {
            assert(d@ =~= g@.take(n as int));
        }
    }

    /// One descent step along the gradient at the current solution.
    fn step(&mut self) -> (r: Result<(), P::Error>)
        requires
            old(self).wf(),
        ensures
            final(self).wf(),
            final(self).problem_spec() == old(self).problem_spec(),
            final(self).steps_spec() == old(self).steps_spec(),
            final(self).max_steps_spec() == old(self).max_steps_spec(),
            final(self).tolerance_spec() == old(self).tolerance_spec(),
            final(self).step_decrease_spec() == old(self).step_decrease_spec(),
            old(self).problem_spec().gradient_is_fd() ==> match fd_gradient_of(
                old(self).problem_spec(),
                old(self).solution_seq(),
            ) {
                Ok(g) => r is Ok && final(self).gradient_seq() == g,
                Err(e) => r == Err::<(), P::Error>(e),
            },
            r is Err ==> {
                &&& final(self).solution_seq() == old(self).solution_seq()
                &&& final(self).step_size_spec() == old(self).step_size_spec()
                &&& final(self).last_residual_spec() == old(self).last_residual_spec()
            },
            r is Ok ==> ({
                let g = final(self).gradient_seq();
                let res = sum_squares(g).sqrt_spec();
                let last = if old(self).steps_spec() == 0 { res } else { old(self).last_residual_spec() };
                let step = gd_step_size(old(self).step_size_spec(), old(self).step_decrease_spec(), last, res);
                &&& final(self).step_size_spec() == step
                &&& final(self).last_residual_spec() == res
                &&& final(self).solution_seq() == gd_move(
                    old(self).solution_seq(),
                    g,
                    step,
                    gd_ramp::<T>(old(self).steps_spec() as nat),
                )
                &&& final(self).solution_seq().len() == old(self).solution_seq().len()
                &&& forall|i: int|
                    0 <= i < old(self).solution_seq().len() ==> #[trigger] final(self).solution_seq()[i]
                        == old(self).solution_seq()[i].sub_spec(
                        g[i].mul_spec(step).mul_spec(gd_ramp::<T>(old(self).steps_spec() as nat)),
                    )
            }),
    {
        // compute the gradient
        match self.problem.gradient(&mut self.gradient, &self.solution) {
            Ok(()) => {},
            Err(e) => {
                return Err(e);
            },
        }
        // compute the current residual as the gradient norm
        let gd = self.gradient.data();
        let n = gd.len();
        let mut residual = T::zero();
        let mut i: usize = 0;
        while i < n
            invariant
                n == gd@.len(),
                i <= n,
                residual == sum_squares(gd@.take(i as int)),
            decreases n - i,
        {
            proof {
                assert(gd@.take(i + 1).drop_last() =~= gd@.take(i as int));
            }
            residual = residual.float_add(gd[i].float_powi(2));
            i = i + 1;
        }
        proof {
            assert(gd@.take(n as int) =~= gd@);
        }
        let residual = residual.float_sqrt();
        if self.steps == 0 {
            self.last_residual = residual;
        }
        // compute the current step size
        let factor = self.step_decrease.float_mul(self.last_residual).float_div(
            residual.float_max(T::fraction(1, 1000000)),
        ).float_min(T::fraction(15, 10)).float_max(T::fraction(5, 10));
        self.step_size = self.step_size.float_mul(factor);
        let extra_fact = if self.steps < 10 {
            T::fraction(self.steps as i32, 10).float_powi(2)
        } else {
            T::one()
        };
        // move
        let step = self.step_size;
        let ghost x0 = self.solution.elems();
        let sd = self.solution.data_mut();
        let mut i: usize = 0;
        while i < n
            invariant
                n == gd@.len(),
                n == sd@.len(),
                x0.len() == n,
                i <= n,
                forall|k: int| 0 <= k < i ==> #[trigger] sd@[k] == x0[k].sub_spec(gd@[k].mul_spec(step).mul_spec(extra_fact)),
                forall|k: int| i <= k < n ==> #[trigger] sd@[k] == x0[k],
            decreases n - i,
        {
            sd[i] = sd[i].float_sub(gd[i].float_mul(step).float_mul(extra_fact));
            i = i + 1;
        }
        proof {
            assert(sd@ =~= gd_move(x0, gd@, step, extra_fact));
        }
        // done!
        self.last_residual = residual;
        Ok(())
    }

    /// Descends until the gradient norm is at most the tolerance (or is NaN),
    /// or the step count reaches `max_steps`; then evaluates the cost.
    pub fn solve(&mut self) -> (r: Result<MinimizationSolverResult<T>, P::Error>)
        requires
            old(self).wf(),
            old(self).steps_spec() < usize::MAX,
        ensures
            final(self).wf(),
            final(self).problem_spec() == old(self).problem_spec(),
            final(self).steps_spec() >= old(self).steps_spec(),
            final(self).max_steps_spec() == old(self).max_steps_spec(),
            final(self).tolerance_spec() == old(self).tolerance_spec(),
            final(self).step_decrease_spec() == old(self).step_decrease_spec(),
            exists|xs: Seq<Seq<T>>, gs: Seq<Seq<T>>, ss: Seq<T>|
                {
                    &&& #[trigger] descent_iterates(
                        old(self).problem_spec(),
                        xs,
                        gs,
                        ss,
                        old(self).steps_spec() as nat,
                        old(self).step_size_spec(),
                        old(self).last_residual_spec(),
                        old(self).step_decrease_spec(),
                    )
                    &&& xs[0] == old(self).solution_seq()
                    &&& xs.last() == final(self).solution_seq()
                    &&& gs.len() == final(self).steps_spec() - old(self).steps_spec()
                    &&& gs.len() > 0 ==> final(self).step_size_spec() == ss.last()
                },
            match r {
                Ok(res) => {
                    &&& res.iterations_spec() == final(self).steps_spec()
                    &&& res.residual_spec() == final(self).last_residual_spec()
                    &&& final(self).problem_spec().cost_at(final(self).solution_seq()) == Ok::<T, P::Error>(res.cost_spec())
                    &&& final(self).steps_spec() > old(self).steps_spec()
                    &&& descent_stops(
                        final(self).last_residual_spec(),
                        final(self).tolerance_spec(),
                        final(self).steps_spec() as int,
                        final(self).max_steps_spec() as int,
                    )
                    &&& exists|hist: Seq<T>|
                        {
                            &&& #[trigger] descent_history(
                                hist,
                                final(self).tolerance_spec(),
                                old(self).steps_spec() as int,
                                final(self).max_steps_spec() as int,
                            )
                            &&& hist.len() == final(self).steps_spec() - old(self).steps_spec()
                            &&& hist.last() == final(self).last_residual_spec()
                        }
                },
                Err(e) => if final(self).steps_spec() > old(self).steps_spec() && descent_stops(
                    final(self).last_residual_spec(),
                    final(self).tolerance_spec(),
                    final(self).steps_spec() as int,
                    final(self).max_steps_spec() as int,
                ) {
                    final(self).problem_spec().cost_at(final(self).solution_seq()) == Err::<T, P::Error>(e)
                } else {
                    final(self).problem_spec().gradient_is_fd() ==> fd_gradient_of(
                        final(self).problem_spec(),
                        final(self).solution_seq(),
                    ) == Err::<Seq<T>, P::Error>(e)
                },
            },
    {
        let ghost mut hist: Seq<T> = Seq::empty();
        let ghost mut xs: Seq<Seq<T>> = seq![self.solution_seq()];
        let ghost mut gs: Seq<Seq<T>> = Seq::empty();
        let ghost mut ss: Seq<T> = Seq::empty();
        loop
            invariant_except_break
                self.steps < usize::MAX,
                descent_history(hist, self.tolerance, old(self).steps as int, self.max_steps as int),
                hist.len() == self.steps - old(self).steps,
                hist.len() > 0 ==> !descent_stops(hist.last(), self.tolerance, self.steps as int, self.max_steps as int),
                hist.len() > 0 ==> hist.last() == self.last_residual,
            invariant
                self.wf(),
                self.problem_spec() == old(self).problem_spec(),
                self.steps_spec() >= old(self).steps_spec(),
                self.max_steps == old(self).max_steps_spec(),
                self.tolerance == old(self).tolerance_spec(),
                self.step_decrease == old(self).step_decrease_spec(),
                descent_iterates(
                    old(self).problem_spec(),
                    xs,
                    gs,
                    ss,
                    old(self).steps_spec() as nat,
                    old(self).step_size_spec(),
                    old(self).last_residual_spec(),
                    old(self).step_decrease_spec(),
                ),
                xs[0] == old(self).solution_seq(),
                xs.last() == self.solution_seq(),
                gs.len() == self.steps - old(self).steps,
                gs.len() > 0 ==> self.step_size == ss.last(),
                gs.len() > 0 ==> self.last_residual == sum_squares(gs.last()).sqrt_spec(),
                gs.len() == 0 ==> self.step_size == old(self).step_size && self.last_residual == old(self).last_residual,
            ensures
                self.steps_spec() > old(self).steps_spec(),
                self.last_residual.le_spec(self.tolerance) || !self.last_residual.eq_spec(self.last_residual)
                    || self.steps >= self.max_steps,
                descent_history(hist, self.tolerance, old(self).steps as int, self.max_steps as int),
                hist.len() == self.steps - old(self).steps,
                hist.last() == self.last_residual,
            decreases usize::MAX - self.steps,
        {
            match self.step() {
                Ok(()) => {},
                Err(e) => {
                    return Err(e);
                },
            }
            proof {
                let k = gs.len() as int;
                let pgs = gs;
                let pss = ss;
                let pxs = xs;
                gs = gs.push(self.gradient_seq());
                ss = ss.push(self.step_size);
                xs = xs.push(self.solution_seq());
                assert forall|j: int| #![trigger gs[j]] 0 <= j < gs.len() implies {
                    let res = sum_squares(gs[j]).sqrt_spec();
                    let prev = if j == 0 { old(self).step_size_spec() } else { ss[j - 1] };
                    let last = if old(self).steps_spec() + j == 0 {
                        res
                    } else if j == 0 {
                        old(self).last_residual_spec()
                    } else {
                        sum_squares(gs[j - 1]).sqrt_spec()
                    };
                    &&& ss[j] == gd_step_size(prev, old(self).step_decrease_spec(), last, res)
                    &&& xs[j + 1] == gd_move(xs[j], gs[j], ss[j], gd_ramp::<T>((old(self).steps_spec() + j) as nat))
                    &&& old(self).problem_spec().gradient_is_fd() ==> fd_gradient_of(old(self).problem_spec(), xs[j])
                        == Ok::<Seq<T>, P::Error>(gs[j])
                } by {
                    if j < k {
                        assert(pgs[j] == gs[j]);
                        assert(pss[j] == ss[j]);
                        assert(pxs[j] == xs[j]);
                        assert(pxs[j + 1] == xs[j + 1]);
                        if j > 0 {
                            assert(pgs[j - 1] == gs[j - 1]);
                            assert(pss[j - 1] == ss[j - 1]);
                        }
                    } else {
                        assert(xs[j] == pxs.last());
                        if j > 0 {
                            assert(pgs[j - 1] == gs[j - 1]);
                            assert(pss[j - 1] == ss[j - 1]);
                        }
                    }
                }
            }
            self.steps = self.steps + 1;
            proof {
                hist = hist.push(self.last_residual);
            }
            if self.last_residual.float_le(self.tolerance) {
                break;
            }
            if !self.last_residual.float_eq(self.last_residual) {
                break;
            }
            if self.steps >= self.max_steps {
                break;
            }
        }
        let cost = match self.problem.cost(&self.solution()) {
            Ok(c) => c,
            Err(e) => {
                return Err(e);
            },
        };
        Ok(MinimizationSolverResult { iterations: self.steps, residual: self.last_residual, cost })
    }
}

/// `a[0] b[0] + a[1] b[1] + ...`, summed from the left onto 0.
pub open spec fn dot_spec<T: FloatNumber>(a: Seq<T>, b: Seq<T>) -> T {
    sum_products(T::zero_spec(), a, b)
}

/// The product of the row-major `n`-by-`n` matrix `h` with `g`.
pub open spec fn mat_vec<T: FloatNumber>(h: Seq<T>, n: nat, g: Seq<T>) -> Seq<T> {
    Seq::new(n, |i: int| sum_products(T::zero_spec(), row_of(h, n, i), g))
}

/// `acc + y^T h` for the row-major `n`-by-`n` matrix `h`, accumulated onto `acc`.
pub open spec fn vec_mat_acc<T: FloatNumber>(acc: Seq<T>, y: Seq<T>, h: Seq<T>, n: nat) -> Seq<T> {
    Seq::new(n, |j: int| sum_products(acc[j], y, column_of(h, n, n, j)))
}

/// The BFGS update of one entry of the inverse Hessian:
/// `h + (s.y + y.Hy) s_i s_j / (s.y)^2 - ((Hy)_i s_j + s_i (y^T H)_j) / s.y`.
pub open spec fn bfgs_entry<T: FloatNumber>(h: T, sdy: T, ydh: T, si: T, sj: T, hky_i: T, ythk_j: T) -> T {
    h.add_spec(sdy.add_spec(ydh).mul_spec(si.mul_spec(sj)).div_spec(sdy.mul_spec(sdy))).sub_spec(
        hky_i.mul_spec(sj).add_spec(si.mul_spec(ythk_j)).div_spec(sdy),
    )
}

/// The row-major `n`-by-`n` matrix `h` equals its transpose.
pub open spec fn is_symmetric<T>(h: Seq<T>, n: nat) -> bool {
    forall|i: int, j: int| 0 <= i < n && 0 <= j < n ==> #[trigger] h[i * n + j] == h[j * n + i]
}

/// `x - d alpha`, entry by entry.
pub open spec fn trial_point<T: FloatNumber>(x: Seq<T>, d: Seq<T>, alpha: T) -> Seq<T> {
    Seq::new(x.len(), |i: int| x[i].sub_spec(d[i].mul_spec(alpha)))
}

/// The first trial step of a line search: ten times the last accepted one,
/// divided by 9 once the direction has been flipped more than five times.
pub open spec fn line_search_start<T: FloatNumber>(alpha_last: T, flips: nat) -> T {
    let a = alpha_last.mul_spec(T::from_i32_spec(10));
    if flips > 5 {
        a.div_spec(T::from_i32_spec(9))
    } else {
        a
    }
}

/// The line search from trial `iter` on, with trial step `alpha` and `clast` the
/// cost of the previous trial (of `x` itself on the first): the step returned
/// and the step to remember (none when the search gives up after 30 trials).
pub open spec fn line_search_from<T: FloatNumber, E>(
    cost: spec_fn(Seq<T>) -> Result<T, E>,
    x: Seq<T>,
    d: Seq<T>,
    alpha: T,
    clast: T,
    iter: nat,
) -> Result<(T, Option<T>), E>
    decreases 31 - iter,
{
    if iter > 30 {
        Ok((alpha, None))
    } else {
        match cost(trial_point(x, d, alpha)) {
            Err(e) => Err(e),
            Ok(c1) => if iter == 0 && c1.lt_spec(clast) {
                Ok((alpha, Some(alpha)))
            } else if iter > 0 && clast.lt_spec(c1) {
                let a = alpha.mul_spec(T::from_i32_spec(10));
                Ok((a, Some(a)))
            } else {
                let a = alpha.div_spec(T::from_i32_spec(10));
                if iter + 1 > 30 {
                    Ok((a, None))
                } else {
                    line_search_from(cost, x, d, a, c1, iter + 1)
                }
            },
        }
    }
}

fn dot<T: FloatNumber>(a: &[T], b: &[T]) -> (r: T)
    requires
        a@.len() <= b@.len(),
    ensures
        r == dot_spec(a@, b@),
{
    let n = a.len();
    let mut r = T::zero();
    let mut i: usize = 0;
    while i < n
        invariant
            n == a@.len(),
            n <= b@.len(),
            i <= n,
            r == sum_products(T::zero_spec(), a@.take(i as int), b@),
        decreases n - i,
    {
        proof {
            assert(a@.take(i + 1).drop_last() =~= a@.take(i as int));
        }
        r = r.float_add(a[i].float_mul(b[i]));
        i = i + 1;
    }
    proof {
        assert(a@.take(n as int) =~= a@);
    }
    r
}

fn norm<T: FloatNumber>(a: &[T]) -> (r: T)
    ensures
        r == sum_squares(a@).sqrt_spec(),
{
    let n = a.len();
    let mut r = T::zero();
    let mut i: usize = 0;
    while i < n
        invariant
            n == a@.len(),
            i <= n,
            r == sum_squares(a@.take(i as int)),
        decreases n - i,
    {
        proof {
            assert(a@.take(i + 1).drop_last() =~= a@.take(i as int));
        }
        r = r.float_add(a[i].float_powi(2));
        i = i + 1;
    }
    proof {
        assert(a@.take(n as int) =~= a@);
    }
    r.float_sqrt()
}

fn negate<T: FloatNumber>(d: &mut [T])
    ensures
        final(d)@ == Seq::new(old(d)@.len(), |i: int| old(d)@[i].neg_spec()),
{
    let n = d.len();
    let mut i: usize = 0;
    while i < n
        invariant
            n == d@.len(),
            n == old(d)@.len(),
            i <= n,
            forall|k: int| 0 <= k < i ==> #[trigger] d@[k] == old(d)@[k].neg_spec(),
            forall|k: int| i <= k < n ==> #[trigger] d@[k] == old(d)@[k],
        decreases n - i,
    {
        d[i] = d[i].float_neg();
        i = i + 1;
    }
    proof {
        assert(d@ =~= Seq::new(old(d)@.len(), |i: int| old(d)@[i].neg_spec()));
    }
}

/// `d = -d alpha`, then `x += d`.
fn move_along<T: FloatNumber>(d: &mut [T], x: &mut [T], alpha: T)
    requires
        old(d)@.len() == old(x)@.len(),
    ensures
        final(d)@ == Seq::new(old(d)@.len(), |i: int| old(d)@[i].neg_spec().mul_spec(alpha)),
        final(x)@ == Seq::new(old(x)@.len(), |i: int| old(x)@[i].add_spec(final(d)@[i])),
{
    let n = d.len();
    let mut i: usize = 0;
    while i < n
        invariant
            n == d@.len(),
            n == x@.len(),
            n == old(d)@.len(),
            n == old(x)@.len(),
            i <= n,
            forall|k: int| 0 <= k < i ==> #[trigger] d@[k] == old(d)@[k].neg_spec().mul_spec(alpha),
            forall|k: int| i <= k < n ==> #[trigger] d@[k] == old(d)@[k],
            forall|k: int| 0 <= k < i ==> #[trigger] x@[k] == old(x)@[k].add_spec(d@[k]),
            forall|k: int| i <= k < n ==> #[trigger] x@[k] == old(x)@[k],
        decreases n - i,
    {
        d[i] = d[i].float_neg().float_mul(alpha);
        x[i] = x[i].float_add(d[i]);
        i = i + 1;
    }
    proof {
        assert(d@ =~= Seq::new(old(d)@.len(), |i: int| old(d)@[i].neg_spec().mul_spec(alpha)));
        assert(x@ =~= Seq::new(old(x)@.len(), |i: int| old(x)@[i].add_spec(d@[i])));
    }
}

fn copy_into<T: Copy>(dst: &mut [T], src: &[T])
    requires
        old(dst)@.len() == src@.len(),
    ensures
        final(dst)@ == src@,
{
    let n = dst.len();
    let mut i: usize = 0;
    while i < n
        invariant
            n == dst@.len(),
            n == src@.len(),
            i <= n,
            forall|k: int| 0 <= k < i ==> #[trigger] dst@[k] == src@[k],
        decreases n - i,
    {
        dst[i] = src[i];
        i = i + 1;
    }
    proof {
        assert(dst@ =~= src@);
    }
}

/// `y = g - y`, entry by entry.
fn diff_into<T: FloatNumber>(y: &mut [T], g: &[T])
    requires
        old(y)@.len() == g@.len(),
    ensures
        final(y)@ == Seq::new(g@.len(), |i: int| g@[i].sub_spec(old(y)@[i])),
{
    let n = y.len();
    let mut i: usize = 0;
    while i < n
        invariant
            n == y@.len(),
            n == g@.len(),
            n == old(y)@.len(),
            i <= n,
            forall|k: int| 0 <= k < i ==> #[trigger] y@[k] == g@[k].sub_spec(old(y)@[k]),
            forall|k: int| i <= k < n ==> #[trigger] y@[k] == old(y)@[k],
        decreases n - i,
    {
        y[i] = g[i].float_sub(y[i]);
        i = i + 1;
    }
    proof {
        assert(y@ =~= Seq::new(g@.len(), |i: int| g@[i].sub_spec(old(y)@[i])));
    }
}

/// The row-major `n`-by-`n` identity: 1 where the row equals the column, 0 elsewhere.
pub open spec fn identity_matrix<T: FloatNumber>(n: nat) -> Seq<T> {
    Seq::new(n * n, |k: int| if k / (n as int) == k % (n as int) { T::one_spec() } else { T::zero_spec() })
}

/// Writes the identity into the row-major `n`-by-`n` matrix `h`.
fn fill_identity<T: FloatNumber>(h: &mut [T], n: usize)
    requires
        old(h)@.len() == n * n,
    ensures
        final(h)@ == identity_matrix::<T>(n as nat),
        final(h)@.len() == n * n,
        forall|i: int, j: int|
            0 <= i < n && 0 <= j < n ==> #[trigger] final(h)@[i * n + j] == if i == j {
                T::one_spec()
            } else {
                T::zero_spec()
            },
{
    let ghost nn = n as int;
    let hlen = h.len();
    let mut i: usize = 0;
    while i < n
        invariant
            h@.len() == nn * nn,
            hlen == h@.len(),
            n == nn,
            i <= n,
            forall|a: int, b: int|
                0 <= a < i && 0 <= b < n ==> #[trigger] h@[a * nn + b] == if a == b {
                    T::one_spec()
                } else {
                    T::zero_spec()
                },
        decreases n - i,
    {
        let mut j: usize = 0;
        while j < n
            invariant
                h@.len() == nn * nn,
                hlen == h@.len(),
                n == nn,
                i < n,
                j <= n,
                forall|a: int, b: int|
                    (0 <= a < i && 0 <= b < n) || (a == i && 0 <= b < j) ==> #[trigger] h@[a * nn + b] == if a == b {
                        T::one_spec()
                    } else {
                        T::zero_spec()
                    },
            decreases n - j,
        {
            proof {
                lemma_row_major_index(i as int, j as int, nn, nn);
            }
            let v = if i == j {
                T::one()
            } else {
                T::zero()
            };
            h[i * n + j] = v;
            proof {
                assert forall|a: int, b: int|
                    (0 <= a < i && 0 <= b < n) || (a == i && 0 <= b < j + 1) implies #[trigger] h@[a * nn + b] == if a
                        == b {
                        T::one_spec()
                    } else {
                        T::zero_spec()
                    } by {
                    lemma_row_major_index(a, b, nn, nn);
                    if a * nn + b == i * nn + j {
                        lemma_row_major_unique(a, b, i as int, j as int, nn);
                    }
                }
            }
            j = j + 1;
        }
        i = i + 1;
    }
    proof {
        assert forall|k: int| 0 <= k < h@.len() implies #[trigger] h@[k] == identity_matrix::<T>(n as nat)[k] by {
            lemma_rc(k, nn);
            let r = k / nn;
            let c = k % nn;
            if r >= nn {
                vstd::arithmetic::mul::lemma_mul_inequality(nn, r, nn);
                assert(false);
            }
            assert(h@[r * nn + c] == if r == c { T::one_spec() } else { T::zero_spec() });
        }
        assert(h@ =~= identity_matrix::<T>(n as nat));
    }
}

/// Fills the upper triangle of `tmp` with the BFGS update of `h` and mirrors it below.
fn bfgs_fill<T: FloatNumber>(
    tmp: &mut [T],
    h: &[T],
    n: usize,
    d: &[T],
    hky: &[T],
    ythk: &[T],
    sdy: T,
    ydh: T,
)
    requires
        old(tmp)@.len() == n * n,
        h@.len() == n * n,
        d@.len() == n,
        hky@.len() == n,
        ythk@.len() == n,
    ensures
        final(tmp)@.len() == n * n,
        forall|i: int, j: int|
            0 <= i <= j < n ==> #[trigger] final(tmp)@[i * n + j] == bfgs_entry(
                h@[i * n + j],
                sdy,
                ydh,
                d@[i],
                d@[j],
                hky@[i],
                ythk@[j],
            ) && final(tmp)@[j * n + i] == final(tmp)@[i * n + j],
{
    let ghost nn = n as int;
    let tlen = tmp.len();
    let mut i: usize = 0;
    while i < n
        invariant
            tmp@.len() == nn * nn,
            tlen == tmp@.len(),
            h@.len() == nn * nn,
            d@.len() == n,
            hky@.len() == n,
            ythk@.len() == n,
            n == nn,
            i <= n,
            forall|a: int, b: int|
                0 <= a <= b < n && pair_before(a, b, i as int, i as int) ==> #[trigger] tmp@[a * nn + b] == bfgs_entry(
                    h@[a * nn + b],
                    sdy,
                    ydh,
                    d@[a],
                    d@[b],
                    hky@[a],
                    ythk@[b],
                ) && tmp@[b * nn + a] == tmp@[a * nn + b],
        decreases n - i,
    {
        let mut j: usize = i;
        while j < n
            invariant
                tmp@.len() == nn * nn,
                tlen == tmp@.len(),
                h@.len() == nn * nn,
                d@.len() == n,
                hky@.len() == n,
                ythk@.len() == n,
                n == nn,
                i < n,
                i <= j <= n,
                forall|a: int, b: int|
                    0 <= a <= b < n && pair_before(a, b, i as int, j as int) ==> #[trigger] tmp@[a * nn + b] == bfgs_entry(
                        h@[a * nn + b],
                        sdy,
                        ydh,
                        d@[a],
                        d@[b],
                        hky@[a],
                        ythk@[b],
                    ) && tmp@[b * nn + a] == tmp@[a * nn + b],
            decreases n - j,
        {
            proof {
                lemma_row_major_index(i as int, j as int, nn, nn);
                lemma_row_major_index(j as int, i as int, nn, nn);
            }
            let k1 = i * n + j;
            let k2 = j * n + i;
            let sst_ij = d[i].float_mul(d[j]);
            let hk_y_st_ij = hky[i].float_mul(d[j]);
            let s_yt_hk_ij = d[i].float_mul(ythk[j]);
            let hij = h[k1];
            tmp[k1] = hij.float_add(sdy.float_add(ydh).float_mul(sst_ij).float_div(sdy.float_mul(sdy))).float_sub(
                hk_y_st_ij.float_add(s_yt_hk_ij).float_div(sdy),
            );
            // exploit the fact that the hessian matrix is symmetric
            tmp[k2] = tmp[k1];
            proof {
                assert forall|a: int, b: int|
                    0 <= a <= b < n && pair_before(a, b, i as int, j + 1) implies #[trigger] tmp@[a * nn + b]
                        == bfgs_entry(h@[a * nn + b], sdy, ydh, d@[a], d@[b], hky@[a], ythk@[b]) && tmp@[b * nn + a]
                        == tmp@[a * nn + b] by {
                    lemma_row_major_index(a, b, nn, nn);
                    lemma_row_major_index(b, a, nn, nn);
                    if a * nn + b == k1 {
                        lemma_row_major_unique(a, b, i as int, j as int, nn);
                    }
                    if a * nn + b == k2 {
                        lemma_row_major_unique(a, b, j as int, i as int, nn);
                    }
                    if b * nn + a == k1 {
                        lemma_row_major_unique(b, a, i as int, j as int, nn);
                    }
                    if b * nn + a == k2 {
                        lemma_row_major_unique(b, a, j as int, i as int, nn);
                    }
                }
            }
            j = j + 1;
        }
        i = i + 1;
    }
}

/// `t = x - d alpha`, entry by entry.
fn fill_trial<T: FloatNumber>(t: &mut [T], x: &[T], d: &[T], alpha: T)
    requires
        old(t)@.len() == x@.len(),
        d@.len() == x@.len(),
    ensures
        final(t)@ == trial_point(x@, d@, alpha),
{
    let n = t.len();
    let mut i: usize = 0;
    while i < n
        invariant
            n == t@.len(),
            n == x@.len(),
            n == d@.len(),
            i <= n,
            forall|k: int| 0 <= k < i ==> #[trigger] t@[k] == x@[k].sub_spec(d@[k].mul_spec(alpha)),
        decreases n - i,
    {
        t[i] = x[i].float_sub(d[i].float_mul(alpha));
        i = i + 1;
    }
    proof {
        assert(t@ =~= trial_point(x@, d@, alpha));
    }
}

/// Quasi-Newton minimization, with an approximate inverse Hessian updated by the
/// BFGS formula and a line search along each direction.
pub struct BFGSSolver<T, P> where T: FloatNumber, P: MinimizationProblem<T> {
    problem: P,
    solution: DynamicVector<T>,
    gradient: DynamicVector<T>,
    last_gradient: DynamicVector<T>,
    direction: DynamicVector<T>,
    inverse_hessian: DynamicMatrix<T>,
    tmp_new_hessian: DynamicMatrix<T>,
    tmp_new_solution: DynamicVector<T>,
    hk_y: DynamicVector<T>,
    yt_hk: DynamicVector<T>,
    pub step_size: T,
    alpha_last: T,
    last_residual: T,
    steps: usize,
    pub max_steps: usize,
    pub tolerance: T,
    pub step_decrease: T,
    flips: usize,
}

impl<T, P> BFGSSolver<T, P> where T: FloatNumber, P: MinimizationProblem<T> {
    pub closed spec fn problem_spec(&self) -> P {
        self.problem
    }

    pub closed spec fn solution_seq(&self) -> Seq<T> {
        self.solution.elems()
    }

    /// The gradient at the current solution.
    pub closed spec fn gradient_seq(&self) -> Seq<T> {
        self.gradient.elems()
    }

    /// The last search direction (after a step: the step taken).
    pub closed spec fn direction_seq(&self) -> Seq<T> {
        self.direction.elems()
    }

    /// The approximate inverse Hessian, row-major.
    pub closed spec fn inverse_hessian_seq(&self) -> Seq<T> {
        self.inverse_hessian.elems()
    }

    /// The products `y^T H` of the gradient changes with the inverse Hessian,
    /// summed over the steps taken; the update reads this running sum.
    pub closed spec fn yt_hk_seq(&self) -> Seq<T> {
        self.yt_hk.elems()
    }

    pub closed spec fn step_size_spec(&self) -> T {
        self.step_size
    }

    /// The step the last line search settled on.
    pub closed spec fn alpha_last_spec(&self) -> T {
        self.alpha_last
    }

    /// Gradient norm after the last step.
    pub closed spec fn last_residual_spec(&self) -> T {
        self.last_residual
    }

    pub closed spec fn steps_spec(&self) -> usize {
        self.steps
    }

    pub closed spec fn max_steps_spec(&self) -> usize {
        self.max_steps
    }

    pub closed spec fn tolerance_spec(&self) -> T {
        self.tolerance
    }

    pub closed spec fn step_decrease_spec(&self) -> T {
        self.step_decrease
    }

    /// How often the direction was flipped (and the inverse Hessian reset).
    pub closed spec fn flips_spec(&self) -> usize {
        self.flips
    }

    /// Buffers sized for the problem.
    pub closed spec fn wf(&self) -> bool {
        let n = self.problem.dim();
        &&& self.solution.elems().len() == n
        &&& self.gradient.elems().len() == n
        &&& self.last_gradient.elems().len() == n
        &&& self.direction.elems().len() == n
        &&& self.tmp_new_solution.elems().len() == n
        &&& self.hk_y.elems().len() == n
        &&& self.yt_hk.elems().len() == n
        &&& self.inverse_hessian.elems().len() == n * n
        &&& self.inverse_hessian.ncols() == n
        &&& (self.inverse_hessian.has_shape() <==> n > 0)
        &&& (n > 0 ==> self.inverse_hessian.nrows() == n)
        &&& self.tmp_new_hessian.elems().len() == n * n
    }

    pub fn new(problem: P) -> (s: Self)
        requires
            problem.dim() * problem.dim() <= usize::MAX,
        ensures
            s.wf(),
            s.problem_spec() == problem,
            s.solution_seq() == Seq::new(problem.dim(), |i: int| T::zero_spec()),
            forall|i: int, j: int|
                0 <= i < problem.dim() && 0 <= j < problem.dim() ==> #[trigger] s.inverse_hessian_seq()[i
                    * problem.dim() + j] == if i == j {
                    T::from_i32_spec(1)
                } else {
                    T::from_i32_spec(0)
                },
            s.step_size_spec() == T::fraction_spec(1, 1000),
            s.alpha_last_spec() == T::fraction_spec(1, 100),
            s.last_residual_spec() == T::one_spec(),
            s.steps_spec() == 0,
            s.max_steps_spec() == 10000,
            s.tolerance_spec() == T::epsilon_spec().sqrt_spec().mul_spec(T::from_i32_spec(1000)),
            s.step_decrease_spec() == T::fraction_spec(99, 100),
            s.flips_spec() == 0,
    {
        let size = problem.size();
        let solution = DynamicVector::new(T::zero(), size);
        let gradient = DynamicVector::new(T::zero(), size);
        let last_gradient = DynamicVector::new(T::zero(), size);
        let direction = DynamicVector::new(T::zero(), size);
        let inverse_hessian = DynamicMatrix::eye([size, size]);
        let tmp_new_hessian = DynamicMatrix::new(T::zero(), [size, size]);
        let tmp_new_solution = DynamicVector::new(T::zero(), size);
        let hk_y = DynamicVector::new(T::zero(), size);
        let yt_hk = DynamicVector::new(T::zero(), size);
        let step_size = T::fraction(1, 1000);
        let alpha_last = T::fraction(1, 100);
        let tolerance = T::epsilon().float_sqrt().float_mul(T::float_from_i32(1000));
        let step_decrease = T::fraction(99, 100);
        Self {
            problem,
            solution,
            gradient,
            last_gradient,
            direction,
            inverse_hessian,
            tmp_new_hessian,
            tmp_new_solution,
            hk_y,
            yt_hk,
            step_size,
            alpha_last,
            last_residual: T::one(),
            steps: 0,
            max_steps: 10000,
            tolerance,
            step_decrease,
            flips: 0,
        }
    }

    /// Starts from the first `solution.len()` entries of `guess`.
    pub fn set_initial_guess(&mut self, guess: &impl Vector<T>)
        requires
            guess.elems().len() >= old(self).solution_seq().len(),
        ensures
            final(self).solution_seq() == guess.elems().take(old(self).solution_seq().len() as int),
            final(self).problem_spec() == old(self).problem_spec(),
            final(self).gradient_seq() == old(self).gradient_seq(),
            final(self).direction_seq() == old(self).direction_seq(),
            final(self).inverse_hessian_seq() == old(self).inverse_hessian_seq(),
            final(self).step_size_spec() == old(self).step_size_spec(),
            final(self).alpha_last_spec() == old(self).alpha_last_spec(),
            final(self).last_residual_spec() == old(self).last_residual_spec(),
            final(self).steps_spec() == old(self).steps_spec(),
            final(self).max_steps_spec() == old(self).max_steps_spec(),
            final(self).tolerance_spec() == old(self).tolerance_spec(),
            final(self).step_decrease_spec() == old(self).step_decrease_spec(),
            final(self).flips_spec() == old(self).flips_spec(),
            old(self).wf() ==> final(self).wf(),
    {
        let g = guess.data();
        let n = self.solution.len();
        let d = self.solution.data_mut();
        let mut i: usize = 0;
        while i < n
            invariant
                n == d@.len(),
                g@ == guess.elems(),
                g@.len() >= n,
                i <= n,
                forall|k: int| 0 <= k < i ==> #[trigger] d@[k] == g@[k],
            decreases n - i,
        {
            d[i] = g[i];
            i = i + 1;
        }
        proof {
            assert(d@ =~= g@.take(n as int));
        }
    }

    pub fn solution<'a>(&'a self) -> (v: VectorView<'a, T>)
        ensures
            v.entries() == self.solution_seq(),
    {
        self.solution.view()
    }

    /// Searches a step along `-direction` from the solution: ten times the last
    /// step first (divided by 9 after more than five flips), then tenfold smaller
    /// ones until the cost stops falling, for at most 31 trials.
    pub fn line_search(&mut self) -> (r: Result<T, P::Error>)
        requires
            old(self).wf(),
        ensures
            final(self).wf(),
            final(self).problem_spec() == old(self).problem_spec(),
            final(self).solution_seq() == old(self).solution_seq(),
            final(self).gradient_seq() == old(self).gradient_seq(),
            final(self).direction_seq() == old(self).direction_seq(),
            final(self).inverse_hessian_seq() == old(self).inverse_hessian_seq(),
            final(self).yt_hk_seq() == old(self).yt_hk_seq(),
            final(self).step_size_spec() == old(self).step_size_spec(),
            final(self).last_residual_spec() == old(self).last_residual_spec(),
            final(self).steps_spec() == old(self).steps_spec(),
            final(self).max_steps_spec() == old(self).max_steps_spec(),
            final(self).tolerance_spec() == old(self).tolerance_spec(),
            final(self).step_decrease_spec() == old(self).step_decrease_spec(),
            final(self).flips_spec() == old(self).flips_spec(),
            match old(self).problem_spec().cost_at(old(self).solution_seq()) {
                Err(e) => r == Err::<T, P::Error>(e) && final(self).alpha_last_spec() == old(self).alpha_last_spec(),
                Ok(c0) => match line_search_from(
                    |z: Seq<T>| old(self).problem_spec().cost_at(z),
                    old(self).solution_seq(),
                    old(self).direction_seq(),
                    line_search_start(old(self).alpha_last_spec(), old(self).flips_spec() as nat),
                    c0,
                    0,
                ) {
                    Err(e) => r == Err::<T, P::Error>(e) && final(self).alpha_last_spec() == old(self).alpha_last_spec(),
                    Ok(found) => r == Ok::<T, P::Error>(found.0) && final(self).alpha_last_spec() == match found.1 {
                        Some(a) => a,
                        None => old(self).alpha_last_spec(),
                    },
                },
            },
    {
        let c0 = match self.problem.cost(&self.solution) {
            Ok(c) => c,
            Err(e) => {
                return Err(e);
            },
        };
        // try twice the last alpha
        let mut alpha_guess = self.alpha_last.float_mul(T::float_from_i32(10));
        if self.flips > 5 {
            alpha_guess = alpha_guess.float_div(T::float_from_i32(9));
        }
        let ghost cost_fn = |z: Seq<T>| self.problem.cost_at(z);
        let ghost x = self.solution.elems();
        let ghost d = self.direction.elems();
        let ghost start = alpha_guess;
        let mut c1last = c0;
        let mut iter: usize = 0;
        loop
            invariant
                self.wf(),
                self.problem == old(self).problem,
                self.solution == old(self).solution,
                self.gradient == old(self).gradient,
                self.direction == old(self).direction,
                self.inverse_hessian == old(self).inverse_hessian,
                self.yt_hk == old(self).yt_hk,
                self.step_size == old(self).step_size,
                self.last_residual == old(self).last_residual,
                self.steps == old(self).steps,
                self.max_steps == old(self).max_steps,
                self.tolerance == old(self).tolerance,
                self.step_decrease == old(self).step_decrease,
                self.flips == old(self).flips,
                self.alpha_last == old(self).alpha_last,
                x == self.solution.elems(),
                d == self.direction.elems(),
                cost_fn == (|z: Seq<T>| self.problem.cost_at(z)),
                self.problem.cost_at(x) == Ok::<T, P::Error>(c0),
                start == line_search_start(self.alpha_last, self.flips as nat),
                iter <= 30,
                line_search_from(cost_fn, x, d, start, c0, 0) == line_search_from(cost_fn, x, d, alpha_guess, c1last, iter as nat),
            decreases 30 - iter,
        {
            {
                let xs = self.solution.data();
                let ds = self.direction.data();
                let ts = self.tmp_new_solution.data_mut();
                fill_trial(ts, xs, ds, alpha_guess);
            }
            proof {
                assert(cost_fn(trial_point(x, d, alpha_guess)) == self.problem.cost_at(trial_point(x, d, alpha_guess)));
            }
            let c1 = match self.problem.cost(&self.tmp_new_solution) {
                Ok(c) => c,
                Err(e) => {
                    return Err(e);
                },
            };
            if (iter == 0) && c1.float_lt(c1last) {
                self.alpha_last = alpha_guess;
                return Ok(alpha_guess);
            } else if (iter > 0) && c1last.float_lt(c1) {
                self.alpha_last = alpha_guess.float_mul(T::float_from_i32(10));
                return Ok(self.alpha_last);
            } else {
                // reduce alpha guess
                alpha_guess = alpha_guess.float_div(T::float_from_i32(10));
            }
            c1last = c1;
            iter = iter + 1;
            if iter > 30 {
                return Ok(alpha_guess);
            }
        }
    }

    fn reset_hessian(&mut self)
        requires
            old(self).wf(),
            old(self).problem.dim() > 0,
        ensures
            final(self).inverse_hessian.elems() == identity_matrix::<T>(old(self).problem.dim()),
            final(self).wf(),
            final(self).problem == old(self).problem,
            final(self).solution == old(self).solution,
            final(self).gradient == old(self).gradient,
            final(self).last_gradient == old(self).last_gradient,
            final(self).direction == old(self).direction,
            final(self).tmp_new_hessian == old(self).tmp_new_hessian,
            final(self).tmp_new_solution == old(self).tmp_new_solution,
            final(self).hk_y == old(self).hk_y,
            final(self).yt_hk == old(self).yt_hk,
            final(self).step_size == old(self).step_size,
            final(self).alpha_last == old(self).alpha_last,
            final(self).last_residual == old(self).last_residual,
            final(self).steps == old(self).steps,
            final(self).max_steps == old(self).max_steps,
            final(self).tolerance == old(self).tolerance,
            final(self).step_decrease == old(self).step_decrease,
            final(self).flips == old(self).flips,
    {
        let s = self.inverse_hessian.shape();
        let n = s[0];
        let hd = self.inverse_hessian.data_mut();
        fill_identity(hd, n);
    }

    /// One quasi-Newton step: direction from the inverse Hessian (flipped, with the
    /// inverse Hessian reset, when it does not descend), line search, move, new
    /// gradient, and the BFGS update of the inverse Hessian.
    fn step(&mut self) -> (r: Result<(), P::Error>)
        requires
            old(self).wf(),
            old(self).problem.dim() > 0,
            old(self).flips < usize::MAX,
        ensures
            final(self).wf(),
            final(self).problem == old(self).problem,
            final(self).steps == old(self).steps,
            final(self).max_steps == old(self).max_steps,
            final(self).tolerance == old(self).tolerance,
            final(self).step_decrease == old(self).step_decrease,
            final(self).flips <= old(self).flips + 1,
            ({
                let n = old(self).problem.dim();
                let h0 = old(self).inverse_hessian.elems();
                let g0 = old(self).gradient.elems();
                let d0 = mat_vec(h0, n, g0);
                let flip = dot_spec(d0, g0).lt_spec(T::epsilon_spec());
                let d1 = if flip { Seq::new(n, |i: int| d0[i].neg_spec()) } else { d0 };
                let h1 = if flip { identity_matrix::<T>(n) } else { h0 };
                let flips: int = if flip { old(self).flips + 1 } else { old(self).flips as int };
                let x0 = old(self).solution.elems();
                let cost_fn = |z: Seq<T>| old(self).problem.cost_at(z);
                &&& final(self).flips == flips
                &&& match cost_fn(x0) {
                    Err(e) => {
                        &&& r == Err::<(), P::Error>(e)
                        &&& final(self).solution.elems() == x0
                        &&& final(self).step_size == old(self).step_size
                        &&& final(self).alpha_last == old(self).alpha_last
                        &&& final(self).inverse_hessian.elems() == h1
                        &&& final(self).last_residual == old(self).last_residual
                    },
                    Ok(c0) => match line_search_from(
                        cost_fn,
                        x0,
                        d1,
                        line_search_start(old(self).alpha_last, flips as nat),
                        c0,
                        0,
                    ) {
                        Err(e) => {
                            &&& r == Err::<(), P::Error>(e)
                            &&& final(self).solution.elems() == x0
                            &&& final(self).step_size == old(self).step_size
                            &&& final(self).alpha_last == old(self).alpha_last
                            &&& final(self).inverse_hessian.elems() == h1
                            &&& final(self).last_residual == old(self).last_residual
                        },
                        Ok(found) => {
                            let alpha = found.0;
                            let d2 = Seq::new(n, |i: int| d1[i].neg_spec().mul_spec(alpha));
                            let g1 = final(self).gradient.elems();
                            let yv = Seq::new(n, |i: int| g1[i].sub_spec(g0[i]));
                            let hky = mat_vec(h1, n, yv);
                            let ythk = vec_mat_acc(old(self).yt_hk.elems(), yv, h1, n);
                            let sdy = dot_spec(d2, yv);
                            let ydh = dot_spec(yv, hky);
                            let h2 = final(self).inverse_hessian.elems();
                            &&& final(self).step_size == alpha
                            &&& final(self).alpha_last == match found.1 {
                                Some(a) => a,
                                None => old(self).alpha_last,
                            }
                            &&& final(self).direction.elems() == d2
                            &&& final(self).solution.elems() == Seq::new(n, |i: int| x0[i].add_spec(d2[i]))
                            &&& old(self).problem.gradient_is_fd() ==> match fd_gradient_of(
                                old(self).problem,
                                Seq::new(n, |i: int| x0[i].add_spec(d2[i])),
                            ) {
                                Ok(g) => r is Ok && g1 == g,
                                Err(e) => r == Err::<(), P::Error>(e),
                            }
                            &&& r is Err ==> {
                                &&& final(self).inverse_hessian.elems() == h1
                                &&& final(self).last_residual == old(self).last_residual
                            }
                            &&& r is Ok ==> {
                                &&& final(self).last_residual == sum_squares(g1).sqrt_spec()
                                &&& final(self).yt_hk.elems() == ythk
                                &&& forall|i: int, j: int|
                                    0 <= i <= j < n ==> #[trigger] h2[i * n + j] == bfgs_entry(
                                        h1[i * n + j],
                                        sdy,
                                        ydh,
                                        d2[i],
                                        d2[j],
                                        hky[i],
                                        ythk[j],
                                    ) && h2[j * n + i] == h2[i * n + j]
                            }
                        },
                    },
                }
            }),
    {
        let n = self.solution.len();
        let ghost nn = n as nat;
        let ghost h0 = self.inverse_hessian.elems();
        let ghost g0 = self.gradient.elems();
        let ghost x0 = self.solution.elems();
        // compute the direction
        self.inverse_hessian.imul(&mut self.direction, &self.gradient);
        let ghost d0 = self.direction.elems();
        proof {
            assert(d0 =~= mat_vec(h0, nn, g0));
        }
        let dg = dot(self.direction.data(), self.gradient.data());
        if dg.float_lt(T::epsilon()) {
            self.flips = self.flips + 1;
            // flip the direction
            let dd = self.direction.data_mut();
            negate(dd);
            // also reset the hessian
            self.reset_hessian();
        }
        let ghost d1 = self.direction.elems();
        let ghost h1 = self.inverse_hessian.elems();
        let ghost flip = dot_spec(d0, g0).lt_spec(T::epsilon_spec());
        let ghost flips: int = if flip { old(self).flips + 1 } else { old(self).flips as int };
        let ghost cost0 = |z: Seq<T>| old(self).problem.cost_at(z);
        proof {
            assert(flip ==> d1 =~= Seq::new(nn, |i: int| d0[i].neg_spec()));
            assert(!flip ==> d1 == d0);
            assert(flip ==> h1 == identity_matrix::<T>(nn));
            assert(!flip ==> h1 == h0);
            assert(self.flips == flips);
            assert(cost0 =~= (|z: Seq<T>| self.problem.cost_at(z)));
        }
        // compute the current step size
        let alpha = match self.line_search() {
            Ok(a) => a,
            Err(e) => {
                return Err(e);
            },
        };
        let ghost cost_fn = |z: Seq<T>| self.problem.cost_at(z);
        proof {
            assert(cost_fn =~= (|z: Seq<T>| old(self).problem.cost_at(z)));
            assert(self.solution.elems() == x0);
            assert(self.direction.elems() == d1);
        }
        self.step_size = alpha;
        // move and set direction = - direction * step_size
        {
            let dd = self.direction.data_mut();
            let xd = self.solution.data_mut();
            move_along(dd, xd, alpha);
        }
        let ghost d2 = self.direction.elems();
        proof {
            assert(d2 =~= Seq::new(nn, |i: int| d1[i].neg_spec().mul_spec(alpha)));
            assert(self.solution.elems() =~= Seq::new(nn, |i: int| x0[i].add_spec(d2[i])));
        }
        // compute the new gradient
        {
            let lg = self.last_gradient.data_mut();
            let gd = self.gradient.data();
            copy_into(lg, gd);
        }
        match self.problem.gradient(&mut self.gradient, &self.solution) {
            Ok(()) => {},
            Err(e) => {
                return Err(e);
            },
        }
        let ghost g1 = self.gradient.elems();
        // compute the current residual as the gradient norm
        let residual = norm(self.gradient.data());
        if self.steps == 0 {
            self.last_residual = residual;
        }
        // store the gradient change in the last gradient array
        {
            let lg = self.last_gradient.data_mut();
            let gd = self.gradient.data();
            diff_into(lg, gd);
        }
        let ghost yv = self.last_gradient.elems();
        let ghost yt0 = self.yt_hk.elems();
        // update the hessian matrix
        self.inverse_hessian.imul(&mut self.hk_y, &self.last_gradient);
        self.inverse_hessian.imul_left(&mut self.yt_hk, &self.last_gradient);
        proof {
            assert(self.hk_y.elems() =~= mat_vec(h1, nn, yv));
            assert(self.yt_hk.elems() =~= vec_mat_acc(yt0, yv, h1, nn));
        }
        let s_dot_y = dot(self.direction.data(), self.last_gradient.data());
        let y_dot_hky = dot(self.last_gradient.data(), self.hk_y.data());
        {
            let td = self.tmp_new_hessian.data_mut();
            bfgs_fill(
                td,
                self.inverse_hessian.data(),
                n,
                self.direction.data(),
                self.hk_y.data(),
                self.yt_hk.data(),
                s_dot_y,
                y_dot_hky,
            );
        }
        {
            let hd = self.inverse_hessian.data_mut();
            copy_into(hd, self.tmp_new_hessian.data());
        }
        // done!
        self.last_residual = residual;
        proof {
            assert(yv =~= Seq::new(nn, |i: int| g1[i].sub_spec(g0[i])));
            assert(cost0 =~= cost_fn);
            match cost0(x0) {
                Err(_) => assert(false),
                Ok(c0) => {
                    match line_search_from(cost0, x0, d1, line_search_start(old(self).alpha_last, flips as nat), c0, 0) {
                        Err(_) => assert(false),
                        Ok(found) => {
                            assert(alpha == found.0);
                            assert(self.alpha_last == match found.1 {
                                Some(a) => a,
                                None => old(self).alpha_last,
                            });
                            assert(self.direction.elems() == d2);
                            assert(self.last_residual == sum_squares(g1).sqrt_spec());
                            let hky = mat_vec(h1, nn, yv);
                            let ythk = vec_mat_acc(old(self).yt_hk.elems(), yv, h1, nn);
                            assert(self.yt_hk.elems() == ythk);
                            let sdy = dot_spec(d2, yv);
                            let ydh = dot_spec(yv, hky);
                            assert(s_dot_y == sdy);
                            assert(y_dot_hky == ydh);
                            let h2 = self.inverse_hessian.elems();
                            assert(forall|i: int, j: int|
                                0 <= i <= j < nn ==> #[trigger] h2[i * nn + j] == bfgs_entry(
                                    h1[i * nn + j],
                                    sdy,
                                    ydh,
                                    d2[i],
                                    d2[j],
                                    hky[i],
                                    ythk[j],
                                ) && h2[j * nn + i] == h2[i * nn + j]);
                        },
                    }
                },
            }
        }
        Ok(())
    }

    /// Computes the gradient, then steps until the gradient norm is at most the
    /// tolerance (or is NaN), or the step count reaches `max_steps`; then
    /// evaluates the cost.
    pub fn solve(&mut self) -> (r: Result<MinimizationSolverResult<T>, P::Error>)
        requires
            old(self).wf(),
            old(self).problem_spec().dim() > 0,
            old(self).steps_spec() < usize::MAX,
            old(self).flips_spec() + old(self).max_steps_spec() < usize::MAX,
        ensures
            final(self).wf(),
            final(self).problem_spec() == old(self).problem_spec(),
            final(self).steps_spec() >= old(self).steps_spec(),
            final(self).max_steps_spec() == old(self).max_steps_spec(),
            final(self).tolerance_spec() == old(self).tolerance_spec(),
            final(self).step_decrease_spec() == old(self).step_decrease_spec(),
            match r {
                Ok(res) => {
                    &&& res.iterations_spec() == final(self).steps_spec()
                    &&& res.residual_spec() == final(self).last_residual_spec()
                    &&& final(self).problem_spec().cost_at(final(self).solution_seq()) == Ok::<T, P::Error>(res.cost_spec())
                    &&& final(self).steps_spec() > old(self).steps_spec()
                    &&& descent_stops(
                        final(self).last_residual_spec(),
                        final(self).tolerance_spec(),
                        final(self).steps_spec() as int,
                        final(self).max_steps_spec() as int,
                    )
                    &&& exists|hist: Seq<T>|
                        {
                            &&& #[trigger] descent_history(
                                hist,
                                final(self).tolerance_spec(),
                                old(self).steps_spec() as int,
                                final(self).max_steps_spec() as int,
                            )
                            &&& hist.len() == final(self).steps_spec() - old(self).steps_spec()
                            &&& hist.last() == final(self).last_residual_spec()
                        }
                    &&& is_symmetric(final(self).inverse_hessian_seq(), final(self).problem_spec().dim())
                    &&& final(self).problem_spec().gradient_is_fd() ==> fd_gradient_of(
                        final(self).problem_spec(),
                        final(self).solution_seq(),
                    ) == Ok::<Seq<T>, P::Error>(final(self).gradient_seq())
                },
                Err(e) => final(self).steps_spec() > old(self).steps_spec() && descent_stops(
                    final(self).last_residual_spec(),
                    final(self).tolerance_spec(),
                    final(self).steps_spec() as int,
                    final(self).max_steps_spec() as int,
                ) ==> final(self).problem_spec().cost_at(final(self).solution_seq()) == Err::<T, P::Error>(e),
            },
    {
        //start the method by computing the gradient
        match self.problem.gradient(&mut self.gradient, &self.solution) {
            Ok(()) => {},
            Err(e) => {
                return Err(e);
            },
        }
        let ghost mut hist: Seq<T> = Seq::empty();
        loop
            invariant_except_break
                self.steps < usize::MAX,
                descent_history(hist, self.tolerance, old(self).steps as int, self.max_steps as int),
                hist.len() == self.steps - old(self).steps,
                hist.len() > 0 ==> !descent_stops(hist.last(), self.tolerance, self.steps as int, self.max_steps as int),
                hist.len() > 0 ==> hist.last() == self.last_residual,
                self.flips + (if self.steps < self.max_steps { self.max_steps - self.steps } else { 0 }) < usize::MAX,
            invariant
                self.wf(),
                self.problem == old(self).problem,
                self.problem.dim() > 0,
                self.steps >= old(self).steps,
                self.max_steps == old(self).max_steps,
                self.tolerance == old(self).tolerance,
                self.step_decrease == old(self).step_decrease,
                self.problem.gradient_is_fd() ==> fd_gradient_of(self.problem, self.solution.elems())
                    == Ok::<Seq<T>, P::Error>(self.gradient.elems()),
            ensures
                self.steps > old(self).steps,
                self.last_residual.le_spec(self.tolerance) || !self.last_residual.eq_spec(self.last_residual)
                    || self.steps >= self.max_steps,
                descent_history(hist, self.tolerance, old(self).steps as int, self.max_steps as int),
                hist.len() == self.steps - old(self).steps,
                hist.last() == self.last_residual,
                is_symmetric(self.inverse_hessian.elems(), self.problem.dim()),
            decreases usize::MAX - self.steps,
        {
            match self.step() {
                Ok(()) => {},
                Err(e) => {
                    return Err(e);
                },
            }
            self.steps = self.steps + 1;
            proof {
                hist = hist.push(self.last_residual);
                let n = self.problem.dim();
                let h = self.inverse_hessian.elems();
                assert forall|i: int, j: int| 0 <= i < n && 0 <= j < n implies #[trigger] h[i * n + j] == h[j * n + i] by {
                    if j < i {
                        assert(h[j * n + i] == h[i * n + j]);
                    }
                }
            }
            if self.last_residual.float_le(self.tolerance) {
                break;
            }
            if !self.last_residual.float_eq(self.last_residual) {
                break;
            }
            if self.steps >= self.max_steps {
                break;
            }
        }
        let cost = match self.problem.cost(&self.solution()) {
            Ok(c) => c,
            Err(e) => {
                return Err(e);
            },
        };
        let res = MinimizationSolverResult { iterations: self.steps, residual: self.last_residual, cost };
        proof {
            assert(is_symmetric(self.inverse_hessian_seq(), self.problem_spec().dim()));
            assert(self.problem_spec().cost_at(self.solution_seq()) == Ok::<T, P::Error>(res.cost_spec()));
        }
        Ok(res)
    }
}

} // verus!
