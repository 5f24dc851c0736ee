//! Linear algebra datatypes and subroutines.
pub mod factorize;
pub mod matrix;
pub mod sparse;
pub mod vector;

pub use matrix::Matrix;
pub use vector::{Vector, VectorMut};

use vstd::prelude::*;

verus! {

#[derive(Debug)]
pub enum Error {
    ErrorSingularMatrix,
    ErrorSizeInvalid,
}

} // verus!
