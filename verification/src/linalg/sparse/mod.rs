pub mod csr;
pub mod sparsity;
