# calamus

A lightweight library for scientific computing with no dependency, written in
Verus: the numerical code is proved against contracts stated over an abstract
number type, [`FloatNumber`](src/num_traits.rs), with a spec function per
operation. The proofs are generic: they never look at what an implementation's
spec functions say, so every statement holds for any implementation, read with
the meaning that implementation gives them. An implementation verified in Verus
(such as `Complex`) defines them; the `f64` types of `app/` and `tests/` are
plain Rust, which cannot define spec functions, so for them the operations stay
the unverified floating-point ones and the statements are read informally.

## Layout

- `src/num_traits.rs`: the number trait, with a spec function per operation.
- `src/complex.rs`: complex numbers over any `FloatNumber`, themselves one.
- `src/linalg/`: dense vectors and matrices (`vector.rs`, `matrix.rs`), the
  pivoted LU factorization (`factorize/lu.rs`), and compressed sparse rows
  (`sparse/`).
- `src/optimize/`: Newton root finding (`root.rs`) and minimization by gradient
  descent, BFGS or Newton on the gradient (`minimize.rs`).
- `src/ode/`: the `Ode` trait, and single step attempts of the explicit RK45 and
  implicit BDF-2 integrators.
- `src/functions/`: factorial, Lagrange polynomial bases, the incomplete beta function.
- `app/`: what is not verified: the `f64` number type, the special functions
  built on floating-point constants, the stepping loops of the ODE solvers, and
  text output.
- `tests/`: executable tests on `f64`.

## Verified properties (a selection)

- Finite difference Jacobians, gradients and Hessians are exactly the stated
  difference quotients, errors being passed on from the first failing evaluation.
- The LU factorization follows partial pivoting step by step; its row permutation
  is a permutation, with the count of row swaps stored after it.
- Closing a sparse row stable-sorts its entries by column; stable sorts are unique;
  transposing mirrors the stored entries.
- Newton's method stops with a correction norm below the tolerance or after 500
  steps; each correction solves the residual at the current iterate against the
  factorized Jacobian (the difference quotients of the residual, for a problem
  whose Jacobian is that); the BFGS inverse Hessian is symmetric after every step.
- Gradient descent and BFGS move along the problem's gradient at the current
  solution (the difference quotients of the cost, for a problem whose gradient is
  that), and hand back the error of the evaluation that failed.
- The provided difference quotients keep their scratch vectors on the stack for
  up to 256 unknowns, as the solvers keep theirs from creation on.
- An accepted ODE step advances the time by the step size and shifts the history.
