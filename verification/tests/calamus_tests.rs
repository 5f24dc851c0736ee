use calamus::functions::beta::beta_incomplete;
use calamus::functions::factorial;
use calamus::functions::lagrange::{lagrange_polynomial, LagrangePolynomialBasis};
use calamus::linalg::factorize::lu::DynamicLu;
use calamus::linalg::factorize::MatrixFactorization;
use calamus::linalg::matrix::{DynamicMatrix, Matrix, MatrixMut};
use calamus::linalg::sparse::csr::SparseMatrixCSR;
use calamus::linalg::vector::{DynamicVector, Vector, VectorMut, VectorView};
use calamus::linalg::Error;
use calamus::num_traits::FloatNumber;
use calamus::ode::ode::Ode;
use calamus::ode::solvers::bdf2::Bdf2Attempt;
use calamus::ode::solvers::Solver;
use calamus::ode::{Bdf2, ExplicitRk45};
use calamus::optimize::minimize::{BFGSSolver, GradientDescentSolver, MinimizationProblem, NewtonMinimizationProblem};
use calamus::optimize::root::{NewtonSolver, NewtonSolverError, RootProblem};

/// An f64 seen through the library's number trait.
#[derive(Clone, Copy, Debug, PartialEq)]
struct F(f64);

impl FloatNumber for F {
    fn epsilon() -> Self { F(1e-16) }
    fn zero() -> Self { F(0.0) }
    fn one() -> Self { F(1.0) }
    fn two() -> Self { F(2.0) }
    fn half() -> Self { F(0.5) }
    fn pi() -> Self { F(std::f64::consts::PI) }
    fn float_add(self, rhs: Self) -> Self { F(self.0 + rhs.0) }
    fn float_sub(self, rhs: Self) -> Self { F(self.0 - rhs.0) }
    fn float_mul(self, rhs: Self) -> Self { F(self.0 * rhs.0) }
    fn float_div(self, rhs: Self) -> Self { F(self.0 / rhs.0) }
    fn float_neg(self) -> Self { F(-self.0) }
    fn float_lt(self, rhs: Self) -> bool { self.0 < rhs.0 }
    fn float_le(self, rhs: Self) -> bool { self.0 <= rhs.0 }
    fn float_eq(self, rhs: Self) -> bool { self.0 == rhs.0 }
    fn float_from_i32(v: i32) -> Self { F(v as f64) }
    fn float_abs(self) -> Self { F(self.0.abs()) }
    fn float_sqrt(self) -> Self { F(self.0.sqrt()) }
    fn float_exp(self) -> Self { F(self.0.exp()) }
    fn float_max(self, rhs: Self) -> Self { F(self.0.max(rhs.0)) }
    fn float_min(self, rhs: Self) -> Self { F(self.0.min(rhs.0)) }
    fn fraction(a: i32, b: i32) -> Self { F(a as f64 / b as f64) }
    fn float_powf(self, e: Self) -> Self { F(self.0.powf(e.0)) }
    fn float_powi(self, e: i32) -> Self { F(self.0.powi(e)) }
    fn float_sin(self) -> Self { F(self.0.sin()) }
    fn float_cos(self) -> Self { F(self.0.cos()) }
    fn float_atan2(self, rhs: Self) -> Self { F(self.0.atan2(rhs.0)) }
    fn float_ln(self) -> Self { F(self.0.ln()) }
}


fn f(x: f64) -> F {
    F(x)
}

fn close(a: F, b: f64, tol: f64) -> bool {
    (a.0 - b).abs() < tol
}

// ---------------------------------------------------------------- functions

#[test]
fn factorial_table_and_edge() {
    assert_eq!(factorial(0), 1);
    assert_eq!(factorial(1), 1);
    assert_eq!(factorial(5), 120);
    assert_eq!(factorial(9), 362880);
    assert_eq!(factorial(10), 3628800);
}

#[test]
fn lagrange_doc_example() {
    let pts = [f(0.0), f(1.0), f(2.0)];
    let lagrange = LagrangePolynomialBasis::new(pts);
    let basis = lagrange.basis(0);
    assert!(close(lagrange_polynomial(f(1.5), 0, &pts), -1.0 / 8.0, 1e-14));
    assert!(close(basis(f(1.5)), -1.0 / 8.0, 1e-14));
}

#[test]
fn lagrange_basis_is_one_at_its_node() {
    let pts = [f(0.0), f(1.0), f(3.0)];
    for i in 0..3 {
        for k in 0..3 {
            let v = lagrange_polynomial(pts[k], i, &pts);
            let expect = if i == k { 1.0 } else { 0.0 };
            assert!(close(v, expect, 1e-14));
        }
    }
}

#[test]
fn lagrange_interpolant_reproduces_a_parabola() {
    let lagrange = LagrangePolynomialBasis::new([f(0.0), f(1.0), f(2.0)]);
    let ys = [f(1.0), f(2.0), f(5.0)];
    let p = lagrange.interpolant(&ys);
    // y = x^2 + 1
    assert!(close(p(f(0.5)), 1.25, 1e-13));
    assert!(close(p(f(1.5)), 3.25, 1e-13));
    // l_0(x) = (x - 1)(x - 2) / 2, so l_0'(x) = x - 1.5
    let d = lagrange.basis_derivative(0);
    assert!(close(d(f(0.25)), -1.25, 1e-13));
    assert!(close(d(f(1.5)), 0.0, 1e-14));
    assert!(close(d(f(2.0)), 0.5, 1e-14));
    assert!(close(d(f(0.0)), -1.5, 1e-14));
}

#[test]
fn beta_incomplete_doc_example() {
    let v = beta_incomplete(f(0.5), f(1.5), f(2.2));
    assert!(close(v, 0.15427120198153296, 1e-14));
}

// ---------------------------------------------------------------- dense linear algebra

#[test]
fn dense_matrix_products() {
    let m = DynamicMatrix::from(([2, 3], vec![f(1.0), f(2.0), f(3.0), f(4.0), f(5.0), f(6.0)]));
    assert_eq!(m.shape(), [2, 3]);
    let x = DynamicVector::from_vec(vec![f(1.0), f(0.0), f(-1.0)]);
    let mut r = DynamicVector::new(f(0.0), 2);
    m.imul(&mut r, &x);
    assert_eq!(r.data(), &[f(-2.0), f(-2.0)]);
    let y = DynamicVector::from_vec(vec![f(1.0), f(1.0)]);
    let mut l = DynamicVector::new(f(1.0), 3);
    m.imul_left(&mut l, &y);
    // accumulated onto the previous content
    assert_eq!(l.data(), &[f(6.0), f(8.0), f(10.0)]);
    assert_eq!(m[[1, 2]], f(6.0));
    assert_eq!(m.get([0, 1]), f(2.0));
}

#[test]
fn eye_and_set() {
    let mut m = DynamicMatrix::<F>::eye([3, 3]);
    assert_eq!(m.data(), &[f(1.0), f(0.0), f(0.0), f(0.0), f(1.0), f(0.0), f(0.0), f(0.0), f(1.0)]);
    m.set([2, 0], f(7.0));
    assert_eq!(m[[2, 0]], f(7.0));
    let v = m.view();
    assert_eq!(v[[2, 0]], f(7.0));
    assert_eq!(v.shape(), [3, 3]);
}

#[test]
fn vector_views_keep_entries() {
    let mut v = DynamicVector::from_vec(vec![f(1.0), f(2.0)]);
    v.data_mut()[1] = f(5.0);
    let w = v.view();
    assert_eq!(w.data(), &[f(1.0), f(5.0)]);
    assert_eq!(v[1], f(5.0));
    assert_eq!(w[0], f(1.0));
    let raw = [f(3.0), f(4.0)];
    let s = VectorView::from(&raw[..]);
    assert_eq!(s.len(), 2);
    assert_eq!(s.data()[0], f(3.0));
}

fn lu_of(n: usize, entries: Vec<F>) -> (DynamicLu<F>, Result<(), Error>) {
    let m = DynamicMatrix::from(([n, n], entries));
    let mut lu = DynamicLu::<F>::allocate(n);
    lu.set_matrix(&m).unwrap();
    let r = lu.factorize();
    (lu, r)
}

#[test]
fn lu_solves_a_linear_system() {
    let (lu, r) = lu_of(3, vec![f(2.0), f(1.0), f(1.0), f(4.0), f(-6.0), f(0.0), f(-2.0), f(7.0), f(2.0)]);
    assert!(r.is_ok());
    let b = DynamicVector::from_vec(vec![f(5.0), f(-2.0), f(9.0)]);
    let mut x = DynamicVector::new(f(0.0), 3);
    lu.solve(&mut x, &b);
    let expect = [1.0, 1.0, 2.0];
    for i in 0..3 {
        assert!(close(x.data()[i], expect[i], 1e-12));
    }
}

#[test]
fn lu_pivots_form_a_permutation() {
    let (lu, r) = lu_of(3, vec![f(0.0), f(1.0), f(2.0), f(3.0), f(4.0), f(5.0), f(6.0), f(7.0), f(9.0)]);
    assert!(r.is_ok());
    let mut seen = vec![false; 3];
    for i in 0..3 {
        let k = lu.p[i];
        assert!(k < 3);
        assert!(!seen[k]);
        seen[k] = true;
    }
    assert!(lu.p[3] >= 3 && lu.p[3] <= 6);
}

#[test]
fn lu_reports_a_singular_matrix() {
    let (_lu, r) = lu_of(2, vec![f(1.0), f(2.0), f(2.0), f(4.0)]);
    assert!(matches!(r, Err(Error::ErrorSingularMatrix)));
}

#[test]
fn lu_refuses_a_matrix_of_another_size() {
    let m = DynamicMatrix::from(([3, 3], vec![f(1.0); 9]));
    let mut lu = DynamicLu::<F>::allocate(2);
    assert!(matches!(lu.set_matrix(&m), Err(Error::ErrorSizeInvalid)));
}

// ---------------------------------------------------------------- sparse

#[test]
fn csr_product_and_transpose_mirror_entries() {
    let mut a = SparseMatrixCSR::<F>::new();
    a.push_to_row(2, f(3.0));
    a.push_to_row(0, f(1.0));
    a.close_row();
    a.push_to_row(1, f(2.0));
    a.close_row();
    assert_eq!(a.nrows(), 2);
    assert_eq!(a.ncols(), 3);
    assert_eq!(a.iter_row(0), vec![(0, f(1.0)), (2, f(3.0))]);

    let x = DynamicVector::from_vec(vec![f(1.0), f(10.0), f(100.0)]);
    let mut r = DynamicVector::new(f(0.0), 2);
    a.imul(&mut r, &x);
    assert_eq!(r.data(), &[f(301.0), f(20.0)]);

    let t = a.transpose();
    assert_eq!(t.nrows(), 3);
    assert_eq!(t[[0, 0]], f(1.0));
    assert_eq!(t[[1, 1]], f(2.0));
    assert_eq!(t[[2, 0]], f(3.0));
    assert_eq!(t.iter_row(1), vec![(1, f(2.0))]);
}

// ---------------------------------------------------------------- root finding

struct Cubic;

impl RootProblem<F> for Cubic {
    type Error = ();
    fn size(&self) -> usize {
        3
    }
    fn residual(&self, residual: &mut impl VectorMut<F>, solution: &impl Vector<F>) -> Result<(), ()> {
        let s = solution.data();
        let (x, y, z) = (s[0].0, s[1].0, s[2].0);
        let r = residual.data_mut();
        r[0] = F(x.powi(2) - y + z - 1.0);
        r[1] = F(2.0 * x + y.powi(2) - z - 2.0);
        r[2] = F(x + y + z.powi(3) - 4.0);
        Ok(())
    }
}

#[test]
fn newton_solves_the_example_system() {
    let mut solver = NewtonSolver::<_, _, DynamicLu<F>>::new(Cubic);
    solver.set_initial_guess(&DynamicVector::from_vec(vec![f(1.0), f(1.0), f(1.0)]));
    assert!(solver.solve().is_ok());
    let s = solver.solution();
    let mut r = DynamicVector::new(f(0.0), 3);
    Cubic.residual(&mut r, &s).unwrap();
    for i in 0..3 {
        assert!(r.data()[i].0.abs() < 1e-6);
    }
}

/// `x_i - (i + 1)`, past the size up to which the difference quotients use the stack.
struct Shifted;

impl RootProblem<F> for Shifted {
    type Error = ();
    fn size(&self) -> usize {
        300
    }
    fn residual(&self, residual: &mut impl VectorMut<F>, solution: &impl Vector<F>) -> Result<(), ()> {
        let s = solution.data();
        let r = residual.data_mut();
        for i in 0..300 {
            r[i] = F(s[i].0 - (i as f64 + 1.0));
        }
        Ok(())
    }
}

#[test]
fn newton_solves_a_large_system_with_the_provided_jacobian() {
    let mut solver = NewtonSolver::<_, _, DynamicLu<F>>::new(Shifted);
    solver.set_initial_guess(&DynamicVector::new(f(0.0), 300));
    assert!(solver.solve().is_ok());
    let s = solver.solution();
    for i in 0..300 {
        assert!((s.data()[i].0 - (i as f64 + 1.0)).abs() < 1e-6);
    }
}

struct NoRoot;

impl RootProblem<F> for NoRoot {
    type Error = ();
    fn size(&self) -> usize {
        1
    }
    fn residual(&self, residual: &mut impl VectorMut<F>, solution: &impl Vector<F>) -> Result<(), ()> {
        let x = solution.data()[0].0;
        residual.data_mut()[0] = F(x * x + 1.0);
        Ok(())
    }
}

#[test]
fn newton_gives_up_after_max_iterations() {
    let mut solver = NewtonSolver::<_, _, DynamicLu<F>>::new(NoRoot);
    solver.set_initial_guess(&DynamicVector::from_vec(vec![f(0.5)]));
    assert!(matches!(solver.solve(), Err(NewtonSolverError::MaxIterations)));
}

struct Flat;

impl RootProblem<F> for Flat {
    type Error = ();
    fn size(&self) -> usize {
        1
    }
    fn residual(&self, residual: &mut impl VectorMut<F>, _solution: &impl Vector<F>) -> Result<(), ()> {
        residual.data_mut()[0] = F(1.0);
        Ok(())
    }
}

#[test]
fn newton_reports_a_singular_jacobian() {
    let mut solver = NewtonSolver::<_, _, DynamicLu<F>>::new(Flat);
    assert!(matches!(solver.solve(), Err(NewtonSolverError::LinalgError(Error::ErrorSingularMatrix))));
}

struct Failing;

impl RootProblem<F> for Failing {
    type Error = &'static str;
    fn size(&self) -> usize {
        2
    }
    fn residual(&self, _residual: &mut impl VectorMut<F>, _solution: &impl Vector<F>) -> Result<(), &'static str> {
        Err("no residual")
    }
}

#[test]
fn newton_passes_the_problem_error_on() {
    let mut solver = NewtonSolver::<_, _, DynamicLu<F>>::new(Failing);
    assert!(matches!(solver.solve(), Err(NewtonSolverError::ProblemError("no residual"))));
}

#[test]
fn finite_difference_jacobian_of_a_linear_map() {
    // residual = A x with A = [[2, 1], [0, 3]]
    struct Lin;
    impl RootProblem<F> for Lin {
        type Error = ();
        fn size(&self) -> usize {
            2
        }
        fn residual(&self, residual: &mut impl VectorMut<F>, solution: &impl Vector<F>) -> Result<(), ()> {
            let s = solution.data();
            let r = residual.data_mut();
            r[0] = F(2.0 * s[0].0 + s[1].0);
            r[1] = F(3.0 * s[1].0);
            Ok(())
        }
    }
    let mut j = DynamicMatrix::new(f(0.0), [2, 2]);
    Lin.jacobian(&mut j, &DynamicVector::from_vec(vec![f(1.0), f(2.0)])).unwrap();
    let expect = [2.0, 1.0, 0.0, 3.0];
    for k in 0..4 {
        assert!(close(j.data()[k], expect[k], 1e-6));
    }
}

// ---------------------------------------------------------------- minimization

struct Bowl;

impl MinimizationProblem<F> for Bowl {
    type Error = ();
    fn size(&self) -> usize {
        2
    }
    fn cost(&self, solution: &impl Vector<F>) -> Result<F, ()> {
        let s = solution.data();
        Ok(F((s[0].0 - 1.0).powi(2) + 2.0 * (s[1].0 + 2.0).powi(2)))
    }
}

#[test]
fn finite_difference_gradient_and_hessian_of_a_bowl() {
    let x = DynamicVector::from_vec(vec![f(0.0), f(0.0)]);
    let mut g = DynamicVector::new(f(0.0), 2);
    Bowl.gradient(&mut g, &x).unwrap();
    assert!(close(g.data()[0], -2.0, 1e-4));
    assert!(close(g.data()[1], 8.0, 1e-4));
    let mut h = DynamicMatrix::new(f(0.0), [2, 2]);
    Bowl.hessian(&mut h, &x).unwrap();
    assert!(close(h.data()[0], 2.0, 1e-2));
    assert!(close(h.data()[3], 4.0, 1e-2));
    assert_eq!(h.data()[1], h.data()[2]);
}

#[test]
fn gradient_descent_approaches_the_minimum() {
    let mut solver = GradientDescentSolver::new(Bowl);
    solver.step_size = f(0.05);
    solver.max_steps = 2000;
    solver.tolerance = f(1e-6);
    let result = solver.solve();
    assert!(result.is_ok());
    let cost = Bowl.cost(&solver.solution()).unwrap();
    assert!(cost.0 < 9.0);
}

#[test]
fn bfgs_finds_the_minimum() {
    let mut solver = BFGSSolver::new(Bowl);
    solver.set_initial_guess(&DynamicVector::from_vec(vec![f(3.0), f(1.0)]));
    solver.max_steps = 200;
    assert!(solver.solve().is_ok());
    let s = solver.solution();
    assert!(close(s.data()[0], 1.0, 1e-3));
    assert!(close(s.data()[1], -2.0, 1e-3));
}

#[test]
fn newton_on_the_gradient_finds_the_minimum() {
    let mut solver = NewtonSolver::<_, _, DynamicLu<F>>::new(NewtonMinimizationProblem::new(Bowl));
    assert!(solver.solve().is_ok());
    let s = solver.solution();
    assert!(close(s.data()[0], 1.0, 1e-4));
    assert!(close(s.data()[1], -2.0, 1e-4));
}

// ---------------------------------------------------------------- ode

struct Decay;

impl Ode<F> for Decay {
    type Error = ();
    fn eval_f(&self, f: &mut impl VectorMut<F>, y: &impl Vector<F>, _t: F) -> Result<(), ()> {
        let v = y.data()[0].0;
        f.data_mut()[0] = F(-v);
        Ok(())
    }
    fn problem_size(&self) -> usize {
        1
    }
}

#[test]
fn rk45_integrates_exponential_decay() {
    let mut solver = ExplicitRk45::new(Decay).with_initial_guess(|_| f(1.0)).with_dt0(f(0.01));
    while solver.time().0 < 1.0 {
        while !solver.step_attempt().unwrap() {}
    }
    let t = solver.time().0;
    assert!(close(solver.solution().data()[0], (-t).exp(), 1e-6));
    assert!(solver.steps() > 0);
}

#[test]
fn bdf2_integrates_exponential_decay() {
    let guess = DynamicVector::from_vec(vec![f(1.0)]);
    let mut solver = Bdf2::new(Decay).with_tolerance(f(1e-6)).with_initial_guess(&guess);
    while solver.time().0 < 0.5 {
        loop {
            match solver.step_attempt() {
                Bdf2Attempt::Accepted => break,
                Bdf2Attempt::Stalled(_) => panic!("stalled"),
                _ => {},
            }
        }
    }
    let t = solver.time().0;
    assert!(close(solver.solution().data()[0], (-t).exp(), 1e-3));
}

#[test]
fn bdf2_reinit_restarts_from_the_given_state() {
    let guess = DynamicVector::from_vec(vec![f(1.0)]);
    let mut solver = Bdf2::new(Decay).with_dt0(f(0.001)).with_initial_guess(&guess);
    loop {
        if let Bdf2Attempt::Accepted = solver.step_attempt() {
            break;
        }
    }
    assert_eq!(solver.steps(), 1);
    solver.reinit(&DynamicVector::from_vec(vec![f(2.0)]), f(3.0));
    assert_eq!(solver.time(), f(3.0));
    assert_eq!(solver.step_size(), f(0.001));
    assert_eq!(solver.solution().data(), &[f(2.0)]);
    assert_eq!(solver.steps(), 0);
}

#[test]
fn rk45_reinit_works_as_a_new_solver() {
    let mut solver = ExplicitRk45::new(Decay).with_initial_guess(|_| f(1.0)).with_dt0(f(0.01));
    while !solver.step_attempt().unwrap() {}
    assert_eq!(solver.steps(), 1);
    assert!(solver.step_size() != f(0.01));
    solver.reinit(&DynamicVector::from_vec(vec![f(2.0)]), f(3.0));
    assert_eq!(solver.time(), f(3.0));
    assert_eq!(solver.step_size(), f(0.01));
    assert_eq!(solver.solution().data(), &[f(2.0)]);
    assert_eq!(solver.steps(), 0);
}

#[test]
fn bdf2_takes_f_at_the_end_of_the_step() {
    // y' = t from y = 0 at t = 0: on the first step the history is flat and the
    // step ratio 1, so 3/2 y - 2 * 0 + 1/2 * 0 = h * f(h) = h^2, y = 2 h^2 / 3
    let guess = DynamicVector::from_vec(vec![f(0.0)]);
    let mut solver = Bdf2::new(Ramp).with_dt0(f(0.01)).with_initial_guess(&guess);
    loop {
        let h = solver.step_size().0;
        match solver.step_attempt() {
            Bdf2Attempt::Accepted => {
                let y = solver.solution().data()[0].0;
                assert!((y - 2.0 * h * h / 3.0).abs() < 1e-12);
                assert!(close(solver.time(), h, 1e-15));
                break;
            },
            Bdf2Attempt::Rejected => {},
            _ => panic!("the implicit solve failed"),
        }
    }
}

#[test]
fn ode_finite_difference_jacobian() {
    let mut j = DynamicMatrix::new(f(0.0), [1, 1]);
    Decay.eval_jacobian(&mut j, &DynamicVector::from_vec(vec![f(1.0)]), f(0.0)).unwrap();
    assert!(close(j.data()[0], -1.0, 1e-6));
}

struct Ramp;

impl Ode<F> for Ramp {
    type Error = &'static str;
    fn eval_f(&self, f: &mut impl VectorMut<F>, _y: &impl Vector<F>, t: F) -> Result<(), &'static str> {
        f.data_mut()[0] = t;
        Ok(())
    }
    fn problem_size(&self) -> usize {
        1
    }
}

struct Broken;

impl Ode<F> for Broken {
    type Error = &'static str;
    fn eval_f(&self, _f: &mut impl VectorMut<F>, _y: &impl Vector<F>, _t: F) -> Result<(), &'static str> {
        Err("no f")
    }
    fn problem_size(&self) -> usize {
        1
    }
}

#[test]
fn bdf2_attempt_halves_the_step_when_the_ode_fails() {
    let guess = DynamicVector::from_vec(vec![f(1.0)]);
    let mut solver = Bdf2::new(Broken).with_dt0(f(0.5)).with_initial_guess(&guess);
    match solver.step_attempt() {
        Bdf2Attempt::Failed(calamus::ode::solvers::bdf2::Bdf2Error::Ode("no f")) => {},
        _ => panic!("expected a failed attempt"),
    }
    assert_eq!(solver.step_size(), f(0.25));
    assert_eq!(solver.time(), f(0.0));
}

#[test]
fn rk45_attempt_passes_the_ode_error_on() {
    let mut solver = ExplicitRk45::new(Broken);
    assert_eq!(solver.step_attempt(), Err("no f"));
    assert_eq!(solver.steps(), 0);
}
