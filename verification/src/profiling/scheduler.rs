//! The decisions of the in-kernel probes, taken on each context switch and
//! CPU sample: execution spans of worker threads, and blocking detection by
//! how long a thread that was still runnable stayed off the CPU.
//!
//! Clock differences wrap around, as they do in the probes.
use crate::common::{
    ExecutionSpan, TaskEvent, ThreadState, WorkerInfo, DETECTION_PERF_SAMPLE, DETECTION_SCHEDULER,
    DETECTION_TRACE, EVENT_SCHEDULER_DETECTED, NOT_A_WORKER, TRACE_EXECUTION_END,
    TRACE_EXECUTION_START,
};
use vstd::prelude::*;

verus! {

/// Default blocking threshold: 5 ms.
pub const DEFAULT_THRESHOLD_NS: u64 = 5_000_000;

/// Task state of a thread that was preempted while runnable.
pub const TASK_RUNNING: i64 = 0;

/// What happens when a thread leaves the CPU.
pub struct OffCpu {
    /// The execution span to close: (duration, stack id).
    pub span_end: Option<(u64, i64)>,
    /// The thread's new scheduler state.
    pub thread: ThreadState,
}

/// What happens when a thread gets the CPU.
pub struct OnCpu {
    /// The execution span opened (workers only).
    pub span: Option<ExecutionSpan>,
    /// A blocking report: how long the thread was off the CPU.
    pub blocking: Option<u64>,
    /// The thread's new scheduler state, when it is a worker.
    pub thread: Option<ThreadState>,
}

/// The CPU of the current event (the probes do not read it yet).
pub fn get_cpu_id() -> (r: u32)
    ensures
        r == 0,
{
    0
}

/// The threshold in effect: the configured one, else 5 ms.
pub fn threshold_ns(configured: Option<u64>) -> (r: u64)
    ensures
        r == match configured {
            Some(t) => t,
            None => DEFAULT_THRESHOLD_NS,
        },
{
    match configured {
        Some(t) => t,
        None => DEFAULT_THRESHOLD_NS,
    }
}

/// A thread leaves the CPU at `now` in task state `state`: a worker's open
/// span closes, and the thread's state records when and how it left.
pub fn thread_off_cpu(thread: Option<ThreadState>, span: Option<ExecutionSpan>, is_worker: bool, state: i64, now: u64) -> (r: OffCpu)
    ensures
        r.span_end == (if is_worker && span is Some {
            Some((now.wrapping_sub(span->0.start_time_ns), span->0.stack_id))
        } else {
            None
        }),
        r.thread.last_off_cpu_ns == now,
        r.thread.state_when_switched == state,
        r.thread.last_on_cpu_ns == match thread {
            Some(t) => t.last_on_cpu_ns,
            None => 0,
        },
        r.thread.off_cpu_duration == match thread {
            Some(t) => t.off_cpu_duration,
            None => 0,
        },
{
    let span_end = if is_worker {
        match span {
            Some(s) => Some((now.wrapping_sub(s.start_time_ns), s.stack_id)),
            None => None,
        }
    } else {
        None
    };
    let mut t = match thread {
        Some(t) => t,
        None => ThreadState::default(),
    };
    t.last_off_cpu_ns = now;
    t.state_when_switched = state;
    OffCpu { span_end, thread: t }
}

/// A thread gets the CPU at `now`. Only workers matter: a span opens with
/// the stack captured now, and when the worker had been switched off while
/// still runnable for longer than the threshold, its off-CPU time is
/// reported as blocking.
pub fn thread_on_cpu(thread: Option<ThreadState>, is_worker: bool, now: u64, threshold: u64, stack_id: i64, cpu_id: u32) -> (r: OnCpu)
    ensures
        !is_worker ==> r.span is None && r.blocking is None && r.thread is None,
        is_worker ==> ({
            let t = match thread {
                Some(t) => t,
                None => ThreadState { last_on_cpu_ns: 0, last_off_cpu_ns: 0, off_cpu_duration: 0, state_when_switched: 0 },
            };
            let off = now.wrapping_sub(t.last_off_cpu_ns);
            &&& r.span matches Some(s) && s.start_time_ns == now && s.stack_id == stack_id && s.cpu_id == cpu_id
            &&& r.thread matches Some(nt) && nt.last_on_cpu_ns == now && nt.last_off_cpu_ns == t.last_off_cpu_ns
                && nt.state_when_switched == t.state_when_switched
                && nt.off_cpu_duration == (if t.last_off_cpu_ns > 0 { off } else { t.off_cpu_duration })
            &&& r.blocking == (if t.last_off_cpu_ns > 0 && off > threshold && t.state_when_switched == TASK_RUNNING {
                Some(off)
            } else {
                None
            })
        }),
{
    if !is_worker {
        return OnCpu { span: None, blocking: None, thread: None };
    }
    let span = ExecutionSpan { start_time_ns: now, stack_id, cpu_id, _padding: [0u8; 4] };
    let mut t = match thread {
        Some(t) => t,
        None => ThreadState::default(),
    };
    let mut blocking: Option<u64> = None;
    if t.last_off_cpu_ns > 0 {
        let off = now.wrapping_sub(t.last_off_cpu_ns);
        t.off_cpu_duration = off;
        if off > threshold && t.state_when_switched == TASK_RUNNING {
            blocking = Some(off);
        }
    }
    t.last_on_cpu_ns = now;
    OnCpu { span: Some(span), blocking, thread: Some(t) }
}

/// The process and thread ids packed in a `pid_tgid` value.
pub fn split_pid_tgid(pid_tgid: u64) -> (r: (u32, u32))
    ensures
        r.0 == pid_tgid / 0x1_0000_0000,
        r.1 == pid_tgid % 0x1_0000_0000,
{
    let pid = (pid_tgid >> 32u64) as u32;
    let tid = (pid_tgid & 0xffff_ffffu64) as u32;
    assert(pid_tgid >> 32u64 == pid_tgid / 0x1_0000_0000) by (bit_vector);
    assert(pid_tgid & 0xffff_ffffu64 == pid_tgid % 0x1_0000_0000) by (bit_vector);
    (pid, tid)
}

/// Whether a CPU sample of process `pid` is kept: always without a target,
/// else only for the target.
pub fn sample_passes_filter(pid: u32, target_pid: u32) -> (r: bool)
    ensures
        r == (target_pid == 0 || pid == target_pid),
{
    !(target_pid != 0 && pid != target_pid)
}

/// The worker id of a thread, or `NOT_A_WORKER` when it is not registered.
pub fn worker_id_of(registered: Option<u32>) -> (r: u32)
    ensures
        r == match registered {
            Some(w) => w,
            None => NOT_A_WORKER,
        },
{
    match registered {
        Some(w) => w,
        None => NOT_A_WORKER,
    }
}


/// The kernel's record of a registered worker: its id, the process, its
/// name's bytes (the first sixteen, NUL padded) and the active flag.
pub fn worker_record(worker_id: u32, pid: i32, comm: &[u8]) -> (r: WorkerInfo)
    ensures
        r.worker_id == worker_id,
        r.pid == pid as u32,
        r.is_active == 1,
        forall|i: int| 0 <= i < 16 ==> #[trigger] r.comm@[i] == if i < comm@.len() { comm@[i] } else { 0u8 },
{
    let mut name = [0u8; 16];
    let n = if comm.len() < 16 { comm.len() } else { 16 };
    let mut i: usize = 0;
    while i < n
        invariant
            i <= n <= 16,
            n <= comm@.len(),
            n == comm@.len() || n == 16,
            forall|j: int| 0 <= j < i ==> #[trigger] name@[j] == comm@[j],
            forall|j: int| i <= j < 16 ==> #[trigger] name@[j] == 0u8,
        decreases n - i,
    {
        name[i] = comm[i];
        i += 1;
    }
    WorkerInfo { worker_id, pid: pid as u32, comm: name, is_active: 1, _padding: [0u8; 3] }
}

/// Who and where an event of the probes is about: process, thread, the
/// thread's worker id (`NOT_A_WORKER` when it is not registered), CPU and
/// current Tokio task (0 when unknown).
pub struct EventSource {
    /// Process id.
    pub pid: u32,
    /// Thread id.
    pub tid: u32,
    /// Worker id of the thread.
    pub worker_id: u32,
    /// CPU of the event.
    pub cpu_id: u32,
    /// Tokio task running on the thread.
    pub task_id: u64,
}

/// An event of the probes with the fields every kind shares filled in.
pub open spec fn event_from(
    src: EventSource,
    timestamp_ns: u64,
    event_type: u32,
    stack_id: i64,
    duration_ns: u64,
    thread_state: i64,
    detection_method: u8,
    is_tokio_worker: u8,
    e: TaskEvent,
) -> bool {
    &&& e.pid == src.pid && e.tid == src.tid && e.worker_id == src.worker_id && e.cpu_id == src.cpu_id
    &&& e.task_id == src.task_id && e.timestamp_ns == timestamp_ns && e.event_type == event_type
    &&& e.stack_id == stack_id && e.duration_ns == duration_ns && e.thread_state == thread_state
    &&& e.category == 0 && e.detection_method == detection_method && e.is_tokio_worker == is_tokio_worker
}

fn build_event(
    src: &EventSource,
    timestamp_ns: u64,
    event_type: u32,
    stack_id: i64,
    duration_ns: u64,
    thread_state: i64,
    detection_method: u8,
    is_tokio_worker: u8,
) -> (e: TaskEvent)
    ensures
        event_from(*src, timestamp_ns, event_type, stack_id, duration_ns, thread_state, detection_method, is_tokio_worker, e),
{
    TaskEvent {
        pid: src.pid,
        tid: src.tid,
        timestamp_ns,
        event_type,
        stack_id,
        duration_ns,
        worker_id: src.worker_id,
        cpu_id: src.cpu_id,
        thread_state,
        task_id: src.task_id,
        category: 0,
        detection_method,
        is_tokio_worker,
        _padding: [0u8; 5],
    }
}

/// The event reporting that a worker stayed off the CPU for `duration_ns`
/// while runnable.
pub fn scheduler_blocking_event(src: &EventSource, timestamp_ns: u64, duration_ns: u64, stack_id: i64, thread_state: i64) -> (e: TaskEvent)
    ensures
        event_from(*src, timestamp_ns, EVENT_SCHEDULER_DETECTED, stack_id, duration_ns, thread_state, DETECTION_SCHEDULER, 1, e),
{
    build_event(src, timestamp_ns, EVENT_SCHEDULER_DETECTED, stack_id, duration_ns, thread_state, DETECTION_SCHEDULER, 1)
}

/// The event opening an execution span of a worker.
pub fn execution_start_event(src: &EventSource, timestamp_ns: u64, stack_id: i64) -> (e: TaskEvent)
    ensures
        event_from(*src, timestamp_ns, TRACE_EXECUTION_START, stack_id, 0, 0, DETECTION_TRACE, 1, e),
{
    build_event(src, timestamp_ns, TRACE_EXECUTION_START, stack_id, 0, 0, DETECTION_TRACE, 1)
}

/// The event closing an execution span of a worker after `duration_ns`.
pub fn execution_end_event(src: &EventSource, timestamp_ns: u64, duration_ns: u64, stack_id: i64) -> (e: TaskEvent)
    ensures
        event_from(*src, timestamp_ns, TRACE_EXECUTION_END, stack_id, duration_ns, 0, DETECTION_TRACE, 1, e),
{
    build_event(src, timestamp_ns, TRACE_EXECUTION_END, stack_id, duration_ns, 0, DETECTION_TRACE, 1)
}

/// The event of a CPU sample: a span start marked as a sample.
pub fn cpu_sample_event(src: &EventSource, timestamp_ns: u64, stack_id: i64) -> (e: TaskEvent)
    ensures
        event_from(*src, timestamp_ns, TRACE_EXECUTION_START, stack_id, 0, 0, DETECTION_PERF_SAMPLE, 1, e),
{
    build_event(src, timestamp_ns, TRACE_EXECUTION_START, stack_id, 0, 0, DETECTION_PERF_SAMPLE, 1)
}

/// Detection method of the blocking markers placed in the target's code.
pub const DETECTION_MARKER: u8 = 1;

/// The event of a blocking marker (`trace_blocking_start` or
/// `trace_blocking_end` reached in the target) of type `event_type`,
/// flagged with whether the thread is a registered worker.
pub fn blocking_marker_event(src: &EventSource, timestamp_ns: u64, event_type: u32, stack_id: i64) -> (e: TaskEvent)
    ensures
        event_from(
            *src,
            timestamp_ns,
            event_type,
            stack_id,
            0,
            0,
            DETECTION_MARKER,
            if src.worker_id != NOT_A_WORKER { 1u8 } else { 0u8 },
            e,
        ),
{
    let flag: u8 = if src.worker_id != NOT_A_WORKER { 1 } else { 0 };
    build_event(src, timestamp_ns, event_type, stack_id, 0, 0, DETECTION_MARKER, flag)
}

} // verus!
