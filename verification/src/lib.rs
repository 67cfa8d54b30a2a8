//! hud: analysis core of a blocking-operation profiler for Tokio applications.
pub mod text;
pub mod domain;
pub mod common;
pub mod classification;
pub mod process_lookup;
pub mod preflight;
pub mod symbolization;
pub mod profiling;
pub mod trace_data;
pub mod analysis;
pub mod tui;
pub mod cli;
pub mod export;
