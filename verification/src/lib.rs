//! Differentially private analysis graphs.
//!
//! An analysis is a graph of computation nodes: literals, data sources,
//! arithmetic, and private statistics that add calibrated noise. This crate
//! holds the graph model, the validator that certifies a graph before
//! anything is computed, and the evaluator that says which node is computed
//! next and by which kernel. It also holds the parts of the kernels that
//! rest on order alone: clamping, binning, counting, and the suppression of
//! small counts.
//!
//! Numbers are held as the bit patterns of binary64 values, and their order
//! is read off the patterns; no floating-point arithmetic is done here. The
//! statistics themselves, their noise, and the reading of files are left to
//! the caller, to whom the evaluator hands one kernel at a time.

pub mod number;
pub mod order;
pub mod binning;
pub mod text;
pub mod value;
pub mod graph;
pub mod traversal;
pub mod reach;
pub mod checks;
pub mod typing;
pub mod validator;
pub mod release;
pub mod schedule;
pub mod dispatch;
pub mod arithmetic;
pub mod evaluator;
pub mod ingest;
pub mod kernels;
pub mod surface;
