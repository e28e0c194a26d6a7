//! Core of a benchmarking harness: it resolves a named, inheritable
//! configuration profile, builds the shell script for each (command, input)
//! pairing, extracts size / ratio / peak-memory metrics from what a run left
//! behind, and renders the results as a column-aligned report.
//!
//! Everything here is pure computation over plain values; launching the
//! shell, reading files and taking timestamps belong to the caller.
pub mod config;
pub mod metrics;
pub mod report;
pub mod run;
pub mod script;
pub mod text;
