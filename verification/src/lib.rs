//! Orchestration core of a source-code linting command: a fix-convergence
//! engine with edit-overlap resolution, an incremental-cache gateway, a
//! polymorphic diagnostic model over two diagnostic sources, and reporting
//! sinks with a deterministic machine-readable output order.

pub mod analyzer;
pub mod cache;
pub mod convergence;
pub mod decimal;
pub mod diagnostics;
pub mod edits;
pub mod orchestrator;
pub mod positions;
pub mod reporters;
pub mod rules;
pub mod sorting;
pub mod textorder;
