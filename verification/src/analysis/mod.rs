//! Aggregation of samples into hotspots.
pub mod hotspot_analyzer;
