//! Cortex: a local-first personal context engine.
//!
//! The verified core: text chunking, path and configuration logic,
//! document bookkeeping, ingestion decisions, search ranking and hit
//! assembly, and the layouts of what is stored and exchanged.

pub mod text;
pub mod error;
pub mod document;
pub mod paths;
pub mod traits;
pub mod chunker;
pub mod config;
pub mod numbers;
pub mod ingest;
pub mod watch;
pub mod reader;
pub mod model;
pub mod api;
pub mod cli;
pub mod daemon;
pub mod rank;
pub mod hits;
pub mod blob;
