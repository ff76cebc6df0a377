//! Element-wise arithmetic on two-dimensional matrices, dense and sparse.
//!
//! A representation implements [`Matrix`]: its shape and two primitives, one
//! that combines two matrices element by element and one that transforms a
//! matrix element by element. Addition, subtraction, the scalar operations,
//! negation and element-wise multiplication are each one call of a primitive.
//! [`DenseMatrix`] holds every element of its shape; [`NaiveSparseMatrix`]
//! holds the elements that are not zero. Contracts speak of a matrix through
//! its [`Grid`].

pub mod dense_matrix;
pub mod laws;
pub mod matrix;
pub mod naive_sparse_matrix;
pub mod scalar;

pub use dense_matrix::DenseMatrix;
pub use matrix::Grid;
pub use matrix::IndicesIter;
pub use matrix::Matrix;
pub use matrix::ShapeMismatch;
pub use naive_sparse_matrix::NaiveSparseMatrix;
pub use scalar::Scalar;
