pub mod square;
pub mod tree;
