pub mod complex;
pub mod functions;
pub mod linalg;
pub mod num_traits;
pub mod ode;
pub mod optimize;
