//! Circuit-diagram synthesis for quantum assembly programs.
//!
//! The library lays a linear sequence of gate instructions out on a
//! two-dimensional grid (rows are qubits, columns are time steps),
//! resolves the wiring between control and target qubits of
//! multi-qubit gates, and serializes the layout as a Quantikz (LaTeX)
//! document.

pub mod commands;
pub mod diagram;
pub mod error;
pub mod document;
pub mod instruction;
pub mod latex;
pub mod laws;
pub mod render;
pub mod settings;
pub mod text;
pub mod tikz;
pub mod wire;
