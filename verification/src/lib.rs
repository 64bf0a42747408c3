//! Symbolic modified nodal analysis for small resistive circuits.
//!
//! A circuit is a list of two-terminal elements. The container groups the
//! element terminals into electrical nodes, the assembler builds the symbolic
//! matrices of the nodal equations, and a solver lists them as explanatory
//! steps.
pub mod algebra;
pub mod component;
pub mod container;
pub mod elements;
pub mod interfaces;
pub mod matrix;
pub mod node;
pub mod solvers;
pub mod supernode;
pub mod topology;
pub mod util;
pub mod validation;
