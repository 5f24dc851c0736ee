//! Time integrators for [Ode](crate::ode::Ode) systems.
pub mod bdf2;
pub mod rk45;

pub use bdf2::Bdf2;
pub use rk45::ExplicitRk45;

use vstd::prelude::*;

use crate::linalg::vector::{Vector, VectorView};

verus! {

/// What a time integrator exposes besides stepping: the state and the step size.
pub trait Solver<T> {
    type Error;

    /// The state the methods need (by default, any).
    open spec fn well_formed(&self) -> bool {
        true
    }

    /// Number of unknowns.
    spec fn dim(&self) -> nat;

    /// The solution at the current time.
    spec fn solution_seq(&self) -> Seq<T>;

    spec fn time_spec(&self) -> T;

    /// Number of accepted steps.
    spec fn steps_spec(&self) -> usize;

    /// Size of the next step.
    spec fn step_size_spec(&self) -> T;

    fn solution<'a>(&'a self) -> (v: VectorView<'a, T>)
        ensures
            v.entries() == self.solution_seq(),
    ;

    fn time(&self) -> (t: T)
        ensures
            t == self.time_spec(),
    ;

    fn steps(&self) -> (n: usize)
        ensures
            n == self.steps_spec(),
    ;

    fn step_size(&self) -> (dt: T)
        ensures
            dt == self.step_size_spec(),
    ;

    fn set_step_size(&mut self, dt: T)
        ensures
            final(self).step_size_spec() == dt,
            final(self).solution_seq() == old(self).solution_seq(),
            final(self).time_spec() == old(self).time_spec(),
            final(self).steps_spec() == old(self).steps_spec(),
            final(self).dim() == old(self).dim(),
            final(self).well_formed() == old(self).well_formed(),
    ;

    /// Re-initialize the solver, cleans up data, will work as if the solver was just created
    /// will also erase memory of multi-steps solvers
    /// use this per example when coupling with another solver for CFD and running on many cells to avoid re-allocation
    fn reinit(&mut self, initial_solution: &impl Vector<T>, time: T)
        requires
            old(self).well_formed(),
            initial_solution.elems().len() >= old(self).dim(),
        ensures
            final(self).well_formed(),
            final(self).solution_seq() == initial_solution.elems().take(old(self).dim() as int),
            final(self).time_spec() == time,
            final(self).steps_spec() == 0,
            final(self).dim() == old(self).dim(),
    ;
}

} // verus!
