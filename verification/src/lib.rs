pub mod graph;
