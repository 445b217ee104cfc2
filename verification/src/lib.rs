//! Front-end and execution engine for a small language that describes formal
//! automata: finite automata, pushdown automata and Turing machines.
//!
//! Source text is tokenized, parsed into declarations, validated and lowered
//! into a typed machine model; a pushdown machine can then be stepped over an
//! input string.

pub mod text;
pub mod automata;
pub mod automatan;
pub mod host;
pub mod loader;
