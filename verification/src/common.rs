//! Data shared between the kernel-side probes and userspace: event layout,
//! per-thread scheduler state and worker registration records, and the
//! little-endian byte layout in which the probes hand events over.
use vstd::prelude::*;

verus! {

/// Scheduler-based detection: a worker was off the CPU for longer than the threshold.
pub const EVENT_SCHEDULER_DETECTED: u32 = 3;

/// A worker thread started executing (timeline start).
pub const TRACE_EXECUTION_START: u32 = 10;

/// A worker thread stopped executing (timeline end).
pub const TRACE_EXECUTION_END: u32 = 11;

/// Periodic stack sample (reserved).
pub const TRACE_FUNCTION_SAMPLE: u32 = 12;

/// Worker metadata event (reserved).
pub const TRACE_WORKER_METADATA: u32 = 13;

/// Detection method of scheduler threshold events.
pub const DETECTION_SCHEDULER: u8 = 2;

/// Detection method of scheduler trace (timeline) events.
pub const DETECTION_TRACE: u8 = 3;

/// Detection method of CPU sampling events.
pub const DETECTION_PERF_SAMPLE: u8 = 4;

/// Maximum number of stack frames the kernel captures.
pub const MAX_STACK_DEPTH: usize = 127;

/// Worker id carried by events of threads that are not registered workers.
pub const NOT_A_WORKER: u32 = 0xffff_ffff;

/// Event passed from the kernel probes to userspace through the ring buffer.
#[derive(Clone, Copy)]
pub struct TaskEvent {
    /// Process id (TGID).
    pub pid: u32,
    /// Thread id.
    pub tid: u32,
    /// Monotonic timestamp in nanoseconds.
    pub timestamp_ns: u64,
    /// One of the event type constants.
    pub event_type: u32,
    /// Stack trace id; negative when no stack was captured.
    pub stack_id: i64,
    /// Duration in nanoseconds for end and threshold events, else 0.
    pub duration_ns: u64,
    /// Worker index, or `NOT_A_WORKER`.
    pub worker_id: u32,
    /// CPU core of the event.
    pub cpu_id: u32,
    /// Linux task state at the switch (0 running, 1 interruptible, 2 uninterruptible).
    pub thread_state: i64,
    /// Tokio task id, 0 when unknown.
    pub task_id: u64,
    /// Event category (0 general).
    pub category: u8,
    /// Detection method that produced the event.
    pub detection_method: u8,
    /// 1 for Tokio worker threads, else 0.
    pub is_tokio_worker: u8,
    /// Alignment padding.
    pub _padding: [u8; 5],
}

/// Per-thread scheduler state used by threshold detection.
#[derive(Clone, Copy)]
pub struct ThreadState {
    /// When the thread was last switched onto a CPU.
    pub last_on_cpu_ns: u64,
    /// When the thread was last switched off a CPU.
    pub last_off_cpu_ns: u64,
    /// Length of the last off-CPU period.
    pub off_cpu_duration: u64,
    /// Task state recorded when the thread was switched off.
    pub state_when_switched: i64,
}

impl Default for ThreadState {
    fn default() -> (r: Self)
        ensures
            r.last_on_cpu_ns == 0 && r.last_off_cpu_ns == 0 && r.off_cpu_duration == 0
                && r.state_when_switched == 0,
    {
        ThreadState { last_on_cpu_ns: 0, last_off_cpu_ns: 0, off_cpu_duration: 0, state_when_switched: 0 }
    }
}

/// Registration record of a Tokio worker thread.
#[derive(Clone, Copy)]
pub struct WorkerInfo {
    /// Worker index.
    pub worker_id: u32,
    /// Process id.
    pub pid: u32,
    /// Thread name bytes, NUL padded.
    pub comm: [u8; 16],
    /// 1 while the worker is active.
    pub is_active: u8,
    /// Alignment padding.
    pub _padding: [u8; 3],
}

/// What a worker is currently executing (timeline spans).
#[derive(Clone, Copy)]
pub struct ExecutionSpan {
    /// When execution started.
    pub start_time_ns: u64,
    /// Stack trace id at the start.
    pub stack_id: i64,
    /// CPU core of the execution.
    pub cpu_id: u32,
    /// Alignment padding.
    pub _padding: [u8; 4],
}

impl Default for ExecutionSpan {
    fn default() -> (r: Self)
        ensures
            r.start_time_ns == 0 && r.stack_id == -1 && r.cpu_id == 0,
    {
        ExecutionSpan { start_time_ns: 0, stack_id: -1, cpu_id: 0, _padding: [0u8; 4] }
    }
}

/// Arguments of the `sched/sched_switch` tracepoint, in kernel ABI layout.
pub struct SchedSwitchArgs {
    /// Common tracepoint fields.
    pub __unused__: u64,
    /// Name of the thread switched out.
    pub prev_comm: [u8; 16],
    /// Thread id switched out.
    pub prev_pid: i32,
    /// Priority of the thread switched out.
    pub prev_prio: i32,
    /// Task state of the thread switched out.
    pub prev_state: i64,
    /// Name of the thread switched in.
    pub next_comm: [u8; 16],
    /// Thread id switched in.
    pub next_pid: i32,
    /// Priority of the thread switched in.
    pub next_prio: i32,
}

// =============================================================================
// WIRE FORMAT
// =============================================================================

/// Size in bytes of an event record as the probes write it.
pub const TASK_EVENT_SIZE: usize = 72;

/// The little-endian `u32` at `off`.
pub open spec fn le_u32(b: Seq<u8>, off: int) -> u32 {
    (b[off] as u32) | ((b[off + 1] as u32) << 8u32) | ((b[off + 2] as u32) << 16u32) | ((b[off + 3] as u32)
        << 24u32)
}

/// The little-endian `u64` at `off`.
pub open spec fn le_u64(b: Seq<u8>, off: int) -> u64 {
    (le_u32(b, off) as u64) | ((le_u32(b, off + 4) as u64) << 32u64)
}

/// The event a record of at least `TASK_EVENT_SIZE` bytes holds: fields at
/// the offsets of the C layout (pid 0, tid 4, timestamp 8, type 16, stack
/// id 24, duration 32, worker 40, cpu 44, thread state 48, task id 56,
/// category 64, detection method 65, worker flag 66, padding 67..72).
pub open spec fn decoded(b: Seq<u8>, e: TaskEvent) -> bool {
    &&& e.pid == le_u32(b, 0)
    &&& e.tid == le_u32(b, 4)
    &&& e.timestamp_ns == le_u64(b, 8)
    &&& e.event_type == le_u32(b, 16)
    &&& e.stack_id == le_u64(b, 24) as i64
    &&& e.duration_ns == le_u64(b, 32)
    &&& e.worker_id == le_u32(b, 40)
    &&& e.cpu_id == le_u32(b, 44)
    &&& e.thread_state == le_u64(b, 48) as i64
    &&& e.task_id == le_u64(b, 56)
    &&& e.category == b[64]
    &&& e.detection_method == b[65]
    &&& e.is_tokio_worker == b[66]
}

fn read_u32(b: &[u8], off: usize) -> (r: u32)
    requires
        off + 4 <= b@.len(),
    ensures
        r == le_u32(b@, off as int),
{
    let n = b.len();
    assert(off + 4 <= n);
    (b[off] as u32) | ((b[off + 1] as u32) << 8u32) | ((b[off + 2] as u32) << 16u32) | ((b[off + 3] as u32)
        << 24u32)
}

fn read_u64(b: &[u8], off: usize) -> (r: u64)
    requires
        off + 8 <= b@.len(),
    ensures
        r == le_u64(b@, off as int),
{
    let n = b.len();
    assert(off + 8 <= n);
    (read_u32(b, off) as u64) | ((read_u32(b, off + 4) as u64) << 32u64)
}

impl TaskEvent {
    /// Decodes an event record; `None` for a record shorter than an event.
    pub fn from_bytes(bytes: &[u8]) -> (r: Option<TaskEvent>)
        ensures
            bytes@.len() < TASK_EVENT_SIZE ==> r is None,
            bytes@.len() >= TASK_EVENT_SIZE ==> (r matches Some(e) && decoded(bytes@, e)),
    {
        if bytes.len() < TASK_EVENT_SIZE {
            return None;
        }
        Some(TaskEvent {
            pid: read_u32(bytes, 0),
            tid: read_u32(bytes, 4),
            timestamp_ns: read_u64(bytes, 8),
            event_type: read_u32(bytes, 16),
            stack_id: read_u64(bytes, 24) as i64,
            duration_ns: read_u64(bytes, 32),
            worker_id: read_u32(bytes, 40),
            cpu_id: read_u32(bytes, 44),
            thread_state: read_u64(bytes, 48) as i64,
            task_id: read_u64(bytes, 56),
            category: bytes[64],
            detection_method: bytes[65],
            is_tokio_worker: bytes[66],
            _padding: [bytes[67], bytes[68], bytes[69], bytes[70], bytes[71]],
        })
    }
}

} // verus!
