//! A light-weight ODE solver for possibly stiff problems: the [Ode] trait defines
//! a system `dy/dt = f(t, y)`, solved by [ExplicitRk45] (Runge-Kutta-Fehlberg,
//! for non-stiff problems) or [Bdf2] (adaptive implicit BDF-2, for stiff ones).
pub mod ode;
pub mod solvers;

pub use ode::Ode;
pub use solvers::{Bdf2, ExplicitRk45};
