//! Static analysis of Rust source text: line metrics, code items,
//! function complexity, `use` dependencies and report rendering.
pub mod analyzer;
pub mod cli;
pub mod dependency;
pub mod error;
pub mod metrics;
pub mod model;
pub mod order;
pub mod parser;
pub mod report;
pub mod scanner;
pub mod sort;
pub mod text;
pub mod tui;
