//! Matrix factorizations, to solve linear systems.
pub mod lu;

use vstd::prelude::*;

use super::Error;
use super::Matrix;
use super::{Vector, VectorMut};

use crate::num_traits::FloatNumber;

verus! {

/// A factorization of square matrices of one size, set up once and reused.
pub trait MatrixFactorization<T> {
    /// Size of the square matrices factorized.
    spec fn dim(&self) -> nat;

    /// The internal state lets `set_matrix`, `factorize` and `solve` run.
    spec fn solvable(&self) -> bool;

    /// What `solve` writes for the right-hand side `b`, given the state last factorized.
    spec fn solution_for(&self, b: Seq<T>) -> Seq<T>;

    /// The row-major matrix that `factorize` will work on: the one last copied in.
    spec fn pending(&self) -> Seq<T>;

    /// What `factorize` returns for the row-major matrix `m`.
    spec fn factorize_outcome(&self, m: Seq<T>) -> Result<(), Error>;

    /// What `solve` writes for the right-hand side `b` once the row-major matrix
    /// `m` has been factorized.
    spec fn solution_with(&self, m: Seq<T>, b: Seq<T>) -> Seq<T>;

    fn allocate(size: usize) -> (f: Self) where Self: Sized
        requires
            size < usize::MAX,
            size * size <= usize::MAX,
        ensures
            f.dim() == size,
            size > 0 ==> f.solvable(),
    ;

    /// Copies `matrix` in, when its shape is that of the factorization.
    fn set_matrix<M>(&mut self, matrix: &M) -> (r: Result<(), Error>) where M: Matrix<T>
        requires
            old(self).solvable(),
            matrix.has_shape(),
        ensures
            final(self).solvable(),
            final(self).dim() == old(self).dim(),
            r is Ok <==> (matrix.nrows() == old(self).dim() && matrix.ncols() == old(self).dim()),
            r is Err ==> r == Err::<(), Error>(Error::ErrorSizeInvalid),
            r is Ok && matrix.elems().len() == old(self).dim() * old(self).dim() ==> final(self).pending() == matrix.elems(),
            forall|m: Seq<T>| #[trigger] final(self).factorize_outcome(m) == old(self).factorize_outcome(m),
            forall|m: Seq<T>, b: Seq<T>| #[trigger] final(self).solution_with(m, b) == old(self).solution_with(m, b),
    ;

    fn factorize(&mut self) -> (r: Result<(), Error>) where T: FloatNumber
        requires
            old(self).solvable(),
        ensures
            final(self).solvable(),
            final(self).dim() == old(self).dim(),
            r == old(self).factorize_outcome(old(self).pending()),
            forall|m: Seq<T>| #[trigger] final(self).factorize_outcome(m) == old(self).factorize_outcome(m),
            forall|m: Seq<T>, b: Seq<T>| #[trigger] final(self).solution_with(m, b) == old(self).solution_with(m, b),
            r is Ok ==> forall|b: Seq<T>| #[trigger] final(self).solution_for(b) == old(self).solution_with(old(self).pending(), b),
    ;

    /// Solves `A x = b` for the matrix last factorized.
    fn solve<X, B>(&self, x: &mut X, b: &B) where X: VectorMut<T>, B: Vector<T>, T: FloatNumber
        requires
            self.solvable(),
            old(x).elems().len() == self.dim(),
            b.elems().len() == self.dim(),
        ensures
            final(x).elems().len() == old(x).elems().len(),
            final(x).elems() == self.solution_for(b.elems()),
    ;
}

} // verus!
