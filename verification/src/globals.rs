//! Native global classes: the built-in members each class wires onto its
//! prototype and constructor objects.

pub mod function;
pub mod shared_object;
