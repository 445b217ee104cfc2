//! Running machines: the simulator of pushdown automata.

pub mod npda;
