pub mod permutation_graph;

pub use permutation_graph::PermutationGraph;
