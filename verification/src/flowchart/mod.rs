pub mod graph;
pub mod generator;
