//! Core domain types: newtypes that keep identifiers of different kinds
//! apart, and the error types with their messages.
pub mod decimal;
pub mod errors;
pub mod types;

pub use errors::{ExportError, ProfilerError, TuiError};
pub use types::{CpuId, Duration, FunctionName, Pid, StackId, Tid, Timestamp, WorkerId};
