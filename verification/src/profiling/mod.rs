//! Profiling core: worker discovery, stack classification and the decisions
//! taken on each event.
pub mod worker_discovery;
pub mod worker_sampling;
pub mod event_processor;
pub mod stack_resolver;
pub mod event_display;
pub mod scheduler;
pub mod cpu_utils;
