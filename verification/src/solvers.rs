//! The solving protocol and its two strategies.
pub mod node_matrix_solver;
pub mod node_step_solver;
pub mod solver;
