//! Root finding and minimization of multivariate functions.
pub mod minimize;
pub mod root;
