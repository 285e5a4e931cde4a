//! Static structure analysis for source projects.
//!
//! One analysis run extracts a [`models::Module`] record per source file
//! (declared items, visibility, module kind, raw import targets), derives
//! directed `Uses` and `Declares` relationships between module identifiers,
//! and runs read-only graph analyses over the finished set: cycle detection,
//! per-module metrics, unused-module detection and threshold-based problem
//! classification.
//!
//! Two extraction variants are provided: a structured-grammar variant for
//! Rust sources ([`parser::RustParser`]) and a heuristic line-scanning
//! variant for Python sources ([`python_analyzer::PythonAnalyzer`]).
//! File system walking and manifest tooling live with the caller; the
//! functions here work on file contents and paths handed in as plain values.

pub mod analyzer;
pub mod models;
pub mod parser;
pub mod python_analyzer;
pub mod relations;
pub mod text;
