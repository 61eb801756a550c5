//! Per-extension token, line and file statistics for a directory tree.
//!
//! The crate holds the rules of the pipeline: which files are selected, what a
//! single file contributes, how partial results combine, and what is reported.
//! Reading the file system and printing are left to the caller.

pub mod aggregate;
pub mod compute;
pub mod config;
pub mod discover;
pub mod order;
pub mod reduction;
pub mod render;
pub mod report;
pub mod stats;
pub mod text;
pub mod tokenizer;
