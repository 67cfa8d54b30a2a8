//! What the headless mode prints about events.
use crate::common::NOT_A_WORKER;
use crate::text::{dec_string, push_dec, push_str};
use vstd::prelude::*;

verus! {

/// Statistics of the detection methods.
#[derive(Debug, Clone, Copy, PartialEq, Eq, Structural)]
pub struct DetectionStats {
    /// Off-CPU threshold detections.
    pub scheduler_detected: u64,
}

impl Default for DetectionStats {
    fn default() -> (r: Self)
        ensures
            r.scheduler_detected == 0,
    {
        DetectionStats { scheduler_detected: 0 }
    }
}

/// The name of a Linux task state as the headless output shows it.
pub open spec fn thread_state_text(state: i64) -> Seq<char> {
    if state == 0 {
        "TASK_RUNNING (CPU blocking)"@
    } else if state == 1 {
        "TASK_INTERRUPTIBLE (I/O wait)"@
    } else if state == 2 {
        "TASK_UNINTERRUPTIBLE"@
    } else {
        "UNKNOWN"@
    }
}

/// Decodes a task state.
pub fn thread_state_label(state: i64) -> (r: String)
    ensures
        r@ == thread_state_text(state),
{
    let mut s = String::new();
    if state == 0 {
        push_str(&mut s, "TASK_RUNNING (CPU blocking)");
    } else if state == 1 {
        push_str(&mut s, "TASK_INTERRUPTIBLE (I/O wait)");
    } else if state == 2 {
        push_str(&mut s, "TASK_UNINTERRUPTIBLE");
    } else {
        push_str(&mut s, "UNKNOWN");
    }
    s
}

/// A worker id as shown: `N/A` for a thread that is not a worker.
pub fn worker_label(worker_id: u32) -> (r: String)
    ensures
        worker_id == NOT_A_WORKER ==> r@ == "N/A"@,
        worker_id != NOT_A_WORKER ==> r@ == dec_string(worker_id as nat),
{
    let mut s = String::new();
    if worker_id == NOT_A_WORKER {
        push_str(&mut s, "N/A");
    } else {
        push_dec(&mut s, worker_id as u64);
    }
    s
}

/// The event name of an execution event.
pub fn execution_event_name(is_start: bool) -> (r: &'static str)
    ensures
        is_start ==> r@ == "EXEC_START"@,
        !is_start ==> r@ == "EXEC_END"@,
{
    if is_start {
        "EXEC_START"
    } else {
        "EXEC_END"
    }
}

/// Whether an off-CPU duration is flagged as long: over ten milliseconds.
pub fn is_long_block(duration_ns: u64) -> (r: bool)
    ensures
        r == (duration_ns > 10_000_000),
{
    duration_ns > 10_000_000
}

} // verus!
