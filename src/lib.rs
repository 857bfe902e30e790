pub mod fibonacci;
pub mod matrix;
pub mod sieve;
pub mod tree;

pub use fibonacci::fibonacci;
pub use matrix::matrix_multiply;
pub use sieve::prime_sieve;
pub use tree::{binary_trees, create_tree, TreeNode};
