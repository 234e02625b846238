//! Verified core of a set of operating-system exercises: process lookup and
//! monitoring decisions, memory-map snapshot naming, matrix multiplication
//! split into per-row work items, shared-memory cell encoding, signal
//! handling decisions and report formatting.

pub mod args;
pub mod cells;
pub mod clock;
pub mod decimal;
pub mod lookup;
pub mod matrix;
pub mod memory;
pub mod monitor;
pub mod report;
pub mod snapshot;
