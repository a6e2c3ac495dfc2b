pub mod graph;
pub mod tree;
