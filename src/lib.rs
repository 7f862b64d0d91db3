//! A selection engine: it waits on a fixed set of operations at once and, per
//! activation, runs exactly one body for the first operation whose value is
//! accepted, in a scan order that starts at a random or a fixed branch.
//!
//! `model` validates the cases of a selection, `engine` decides each step of an
//! activation, and `laws` states what holds over any run of those steps.

pub mod engine;
pub mod laws;
pub mod mask;
pub mod model;
