//! Export of the timeline in the Chrome trace event format.
pub mod chrome_trace;
