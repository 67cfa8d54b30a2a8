//! The decisions taken on each event coming out of the kernel: how it is
//! routed and counted, which events are dropped as blocking-pool noise,
//! which reach the display, how a resolved stack is built frame by frame and
//! how a sample is named.
use crate::classification::{classify_frame, frame_origin, opt_str_view, FrameOrigin};
use crate::common::{
    TaskEvent, DETECTION_PERF_SAMPLE, EVENT_SCHEDULER_DETECTED, NOT_A_WORKER, TRACE_EXECUTION_END,
    TRACE_EXECUTION_START,
};
use crate::profiling::stack_resolver::{adjust_address, adjusted};
use crate::symbolization::memory_maps::MemoryRange;
use crate::symbolization::symbolizer::InlinedFrame;
use crate::text::{chars_of, contains_chars, contains_seq, hex_string, is_prefix, push_hex, push_str, starts_with_chars};
use crate::trace_data::{lookup, StackCache, StackFrame, TraceEvent};
use std::sync::Arc;
use vstd::prelude::*;

verus! {

/// How an event is handled.
#[derive(Debug, Clone, Copy, PartialEq, Eq, Structural)]
pub enum EventRoute {
    /// An off-CPU threshold was exceeded.
    SchedulerDetected,
    /// A worker started or stopped executing.
    TraceExecution,
    /// An event type this version does not know.
    Unknown,
}

/// Counters kept while processing events.
pub struct EventCounters {
    /// Scheduler detections reported.
    pub scheduler_detected: u64,
    /// Events processed.
    pub event_count: usize,
    /// Events produced by the perf sampler.
    pub perf_sample_count: usize,
    /// Perf samples with a stack.
    pub perf_stack_ok: usize,
    /// Perf samples without a stack.
    pub perf_stack_fail: usize,
    /// Scheduler detection events.
    pub scheduler_event_count: usize,
    /// Events dropped as blocking-pool noise.
    pub blocking_pool_filtered: usize,
    /// Worker events with a stack considered for the display.
    pub tui_worker_events: usize,
    /// Of those, events without user code.
    pub tui_no_user_code: usize,
    /// Events sent to the display.
    pub tui_sent: usize,
}

// =============================================================================
// SPECIFICATION
// =============================================================================

/// How an event type is routed.
pub open spec fn route_of(event_type: u32) -> EventRoute {
    if event_type == EVENT_SCHEDULER_DETECTED {
        EventRoute::SchedulerDetected
    } else if event_type == TRACE_EXECUTION_START || event_type == TRACE_EXECUTION_END {
        EventRoute::TraceExecution
    } else {
        EventRoute::Unknown
    }
}

/// A stack of Tokio's blocking pool: `Inner::run` without worker frames.
pub open spec fn blocking_pool_stack(frames: Seq<StackFrame>) -> bool {
    &&& exists|i: int| 0 <= i < frames.len() && is_prefix("tokio::runtime::blocking::pool::Inner::run"@, #[trigger] frames[i].function@)
    &&& !exists|i: int| 0 <= i < frames.len() && contains_seq(#[trigger] frames[i].function@, "scheduler::multi_thread::worker"@)
}

/// Some frame of the stack is user code.
pub open spec fn has_user_code_spec(frames: Seq<StackFrame>) -> bool {
    exists|i: int| 0 <= i < frames.len() && #[trigger] frames[i].is_user_code
}

/// The frame a sample is named after: the first user-code frame, else the
/// top frame.
pub open spec fn naming_frame(frames: Seq<StackFrame>) -> Option<StackFrame> {
    if has_user_code_spec(frames) {
        Some(frames[choose|i: int| 0 <= i < frames.len() && frames[i].is_user_code && forall|j: int| 0 <= j < i ==> !#[trigger] frames[j].is_user_code])
    } else if frames.len() > 0 {
        Some(frames[0])
    } else {
        None
    }
}

/// The frame for one address of a stack.
pub open spec fn frame_spec(addr: u64, in_executable: bool, resolved: Option<InlinedFrame>, f: StackFrame) -> bool {
    if in_executable {
        match resolved {
            Some(r) => {
                let file = match r.location {
                    Some(l) => match l.file {
                        Some(x) => Some(x@),
                        None => None,
                    },
                    None => None,
                };
                &&& f.function@ == r.function@
                &&& (match f.file {
                    Some(x) => Some(x@),
                    None => None,
                }) == file
                &&& f.line == match r.location {
                    Some(l) => l.line,
                    None => None,
                }
                &&& f.origin == frame_origin(r.function@, file, true)
                &&& f.is_user_code == (f.origin == FrameOrigin::UserCode)
            },
            None => {
                &&& f.function@ == "0x"@ + hex_string(addr as nat)
                &&& f.file is None && f.line is None
                &&& f.origin == FrameOrigin::Unknown && !f.is_user_code
            },
        }
    } else {
        &&& f.function@ == "<library> 0x"@ + hex_string(addr as nat)
        &&& f.file is None && f.line is None
        &&& f.origin == FrameOrigin::Unknown && !f.is_user_code
    }
}

// =============================================================================
// IMPLEMENTATION
// =============================================================================

impl EventCounters {
    /// Each counter of a kind of event is at most the number of events.
    pub open spec fn wf(&self) -> bool {
        &&& self.perf_sample_count <= self.event_count
        &&& self.perf_stack_ok <= self.perf_sample_count
        &&& self.perf_stack_fail <= self.perf_sample_count
        &&& self.scheduler_event_count <= self.event_count
        &&& self.perf_stack_ok + self.perf_stack_fail == self.perf_sample_count
    }

    /// All counters at zero.
    pub fn new() -> (r: Self)
        ensures
            r.wf(),
            r.event_count == 0 && r.scheduler_detected == 0 && r.perf_sample_count == 0 && r.scheduler_event_count == 0
                && r.blocking_pool_filtered == 0 && r.tui_worker_events == 0 && r.tui_no_user_code == 0 && r.tui_sent == 0,
    {
        EventCounters {
            scheduler_detected: 0,
            event_count: 0,
            perf_sample_count: 0,
            perf_stack_ok: 0,
            perf_stack_fail: 0,
            scheduler_event_count: 0,
            blocking_pool_filtered: 0,
            tui_worker_events: 0,
            tui_no_user_code: 0,
            tui_sent: 0,
        }
    }

    /// Counts an event and says how it is to be handled: scheduler events
    /// and perf samples (with or without a stack) are counted by kind. Once
    /// the event count has reached `usize::MAX` the counters stay as they are.
    pub fn route_event(&mut self, event: &TaskEvent) -> (r: EventRoute)
        requires
            old(self).wf(),
        ensures
            final(self).wf(),
            r == route_of(event.event_type),
            old(self).event_count == usize::MAX ==> *final(self) == *old(self),
            old(self).event_count < usize::MAX ==> {
                &&& final(self).event_count == old(self).event_count + 1
                &&& final(self).scheduler_event_count == old(self).scheduler_event_count + if r == EventRoute::SchedulerDetected { 1int } else { 0int }
                &&& final(self).perf_sample_count == old(self).perf_sample_count + if r == EventRoute::TraceExecution && event.detection_method == DETECTION_PERF_SAMPLE { 1int } else { 0int }
                &&& final(self).perf_stack_ok == old(self).perf_stack_ok + if r == EventRoute::TraceExecution && event.detection_method == DETECTION_PERF_SAMPLE && event.stack_id >= 0 { 1int } else { 0int }
                &&& final(self).perf_stack_fail == old(self).perf_stack_fail + if r == EventRoute::TraceExecution && event.detection_method == DETECTION_PERF_SAMPLE && event.stack_id < 0 { 1int } else { 0int }
                &&& final(self).scheduler_detected == old(self).scheduler_detected
                &&& final(self).blocking_pool_filtered == old(self).blocking_pool_filtered
                &&& final(self).tui_worker_events == old(self).tui_worker_events
                &&& final(self).tui_no_user_code == old(self).tui_no_user_code
                &&& final(self).tui_sent == old(self).tui_sent
            },
    {
        let route = if event.event_type == EVENT_SCHEDULER_DETECTED {
            EventRoute::SchedulerDetected
        } else if event.event_type == TRACE_EXECUTION_START || event.event_type == TRACE_EXECUTION_END {
            EventRoute::TraceExecution
        } else {
            EventRoute::Unknown
        };
        if self.event_count == usize::MAX {
            return route;
        }
        self.event_count = self.event_count + 1;
        match route {
            EventRoute::SchedulerDetected => {
                self.scheduler_event_count = self.scheduler_event_count + 1;
            },
            EventRoute::TraceExecution => {
                if event.detection_method == DETECTION_PERF_SAMPLE {
                    self.perf_sample_count = self.perf_sample_count + 1;
                    if event.stack_id >= 0 {
                        self.perf_stack_ok = self.perf_stack_ok + 1;
                    } else {
                        self.perf_stack_fail = self.perf_stack_fail + 1;
                    }
                }
            },
            EventRoute::Unknown => {},
        }
        route
    }
}

/// Whether a stack comes from Tokio's blocking pool (`spawn_blocking`)
/// rather than a worker: it has `Inner::run` but no worker scheduler frame.
pub fn is_blocking_pool_stack(call_stack: &[StackFrame]) -> (r: bool)
    ensures
        r == blocking_pool_stack(call_stack@),
{
    let pool = chars_of("tokio::runtime::blocking::pool::Inner::run");
    let worker = chars_of("scheduler::multi_thread::worker");
    let mut has_pool = false;
    let mut has_worker = false;
    let mut i: usize = 0;
    while i < call_stack.len()
        invariant
            i <= call_stack.len(),
            pool@ == "tokio::runtime::blocking::pool::Inner::run"@,
            worker@ == "scheduler::multi_thread::worker"@,
            has_pool <==> exists|j: int| 0 <= j < i && is_prefix(pool@, #[trigger] call_stack@[j].function@),
            has_worker <==> exists|j: int| 0 <= j < i && contains_seq(#[trigger] call_stack@[j].function@, worker@),
        decreases call_stack.len() - i,
    {
        let f = chars_of(call_stack[i].function.as_str());
        if starts_with_chars(f.as_slice(), pool.as_slice()) {
            has_pool = true;
        }
        if contains_chars(f.as_slice(), worker.as_slice()) {
            has_worker = true;
        }
        i += 1;
    }
    has_pool && !has_worker
}

/// Whether a scheduler detection is dropped: the thread is not a registered
/// worker and its stack is a blocking-pool stack.
pub fn drops_scheduler_event(worker_id: u32, stack: Option<&Vec<StackFrame>>) -> (r: bool)
    ensures
        r == (worker_id == NOT_A_WORKER && match stack {
            Some(s) => blocking_pool_stack(s@),
            None => false,
        }),
{
    if worker_id != NOT_A_WORKER {
        return false;
    }
    match stack {
        Some(s) => is_blocking_pool_stack(s.as_slice()),
        None => false,
    }
}

/// Whether an execution event is dropped: a start event of a thread that is
/// not a registered worker, with a blocking-pool stack.
pub fn drops_execution_event(event: &TaskEvent, stack: Option<&Vec<StackFrame>>) -> (r: bool)
    ensures
        r == (event.event_type == TRACE_EXECUTION_START && event.worker_id == NOT_A_WORKER && match stack {
            Some(s) => blocking_pool_stack(s@),
            None => false,
        }),
{
    event.event_type == TRACE_EXECUTION_START && drops_scheduler_event(event.worker_id, stack)
}

/// Whether an execution event is a candidate for the display: a start
/// event of a registered worker with a stack.
pub fn is_display_candidate(event: &TaskEvent) -> (r: bool)
    ensures
        r == (event.event_type == TRACE_EXECUTION_START && event.stack_id >= 0 && event.worker_id != NOT_A_WORKER),
{
    event.event_type == TRACE_EXECUTION_START && event.stack_id >= 0 && event.worker_id != NOT_A_WORKER
}

/// Whether a stack has a user-code frame.
pub fn has_user_code(call_stack: &Option<Arc<Vec<StackFrame>>>) -> (r: bool)
    ensures
        r == match *call_stack {
            Some(s) => has_user_code_spec((*s)@),
            None => false,
        },
{
    match call_stack {
        Some(s) => {
            let frames: &Vec<StackFrame> = &**s;
            let mut i: usize = 0;
            while i < frames.len()
                invariant
                    i <= frames.len(),
                    call_stack is Some,
                    frames@ == (*call_stack->0)@,
                    forall|j: int| 0 <= j < i ==> !(#[trigger] frames@[j]).is_user_code,
                decreases frames.len() - i,
            {
                if frames[i].is_user_code {
                    assert(frames@[i as int].is_user_code);
                    return true;
                }
                i += 1;
            }
            false
        },
        None => false,
    }
}

/// The addresses of a stack to resolve: those before the first null one.
pub fn frames_to_resolve(ips: &[u64]) -> (r: Vec<u64>)
    ensures
        forall|k: int| 0 <= k < r@.len() ==> r@[k] != 0,
        r@ == ips@.subrange(0, r@.len() as int),
        r@.len() < ips@.len() ==> ips@[r@.len() as int] == 0,
{
    let mut out: Vec<u64> = Vec::new();
    let mut i: usize = 0;
    while i < ips.len() && ips[i] != 0
        invariant
            i <= ips.len(),
            out@ == ips@.subrange(0, i as int),
            forall|k: int| 0 <= k < i ==> ips@[k] != 0,
        decreases ips.len() - i,
    {
        out.push(ips[i]);
        i += 1;
        assert(out@ =~= ips@.subrange(0, i as int));
    }
    out
}

/// The frame for one address of a stack: what the symbolizer found for an
/// address of the executable (classified), the bare address when it found
/// nothing, and a library marker with the address outside the executable.
pub fn stack_frame_for(addr: u64, in_executable: bool, resolved: Option<&InlinedFrame>) -> (f: StackFrame)
    ensures
        frame_spec(addr, in_executable, match resolved {
            Some(r) => Some(*r),
            None => None,
        }, f),
{
    if in_executable {
        match resolved {
            Some(r) => {
                let file: Option<String> = match &r.location {
                    Some(l) => match &l.file {
                        Some(x) => Some(x.clone()),
                        None => None,
                    },
                    None => None,
                };
                let line: Option<u32> = match &r.location {
                    Some(l) => l.line,
                    None => None,
                };
                let origin = match &file {
                    Some(x) => classify_frame(r.function.as_str(), Some(x.as_str()), true),
                    None => classify_frame(r.function.as_str(), None, true),
                };
                let user = origin.is_user_code();
                StackFrame { function: r.function.clone(), file, line, origin, is_user_code: user }
            },
            None => {
                let mut name = String::new();
                push_str(&mut name, "0x");
                push_hex(&mut name, addr);
                StackFrame { function: name, file: None, line: None, origin: FrameOrigin::Unknown, is_user_code: false }
            },
        }
    } else {
        let mut name = String::new();
        push_str(&mut name, "<library> 0x");
        push_hex(&mut name, addr);
        StackFrame { function: name, file: None, line: None, origin: FrameOrigin::Unknown, is_user_code: false }
    }
}

/// A sample from an execution event and its resolved stack, named after the
/// first user-code frame (else the top frame, else `execution`).
pub fn trace_event_from(event: &TaskEvent, call_stack: Option<Arc<Vec<StackFrame>>>) -> (r: TraceEvent)
    ensures
        r.worker_id == event.worker_id && r.tid == event.tid && r.cpu == event.cpu_id,
        r.timestamp_ns == event.timestamp_ns,
        r.detection_method == Some(event.detection_method as u32),
        r.stack_id == event.stack_id,
        r.call_stack == call_stack,
        match call_stack {
            Some(s) => match naming_frame((*s)@) {
                Some(f) => r.name@ == f.function@ && r.file == f.file && r.line == f.line,
                None => r.name@ == "execution"@ && r.file is None && r.line is None,
            },
            None => r.name@ == "execution"@ && r.file is None && r.line is None,
        },
{
    let mut name = "execution".to_string();
    let mut file: Option<String> = None;
    let mut line: Option<u32> = None;
    match &call_stack {
        Some(s) => {
            let frames: &Vec<StackFrame> = &**s;
            let mut i: usize = 0;
            while i < frames.len() && !frames[i].is_user_code
                invariant
                    i <= frames.len(),
                    forall|j: int| 0 <= j < i ==> !(#[trigger] frames@[j]).is_user_code,
                decreases frames.len() - i,
            {
                i += 1;
            }
            let pick: Option<usize> = if i < frames.len() {
                Some(i)
            } else if frames.len() > 0 {
                Some(0)
            } else {
                None
            };
            proof {
                if i < frames.len() {
                    let k = choose|k: int| 0 <= k < frames@.len() && frames@[k].is_user_code && forall|j: int| 0 <= j < k ==> !#[trigger] frames@[j].is_user_code;
                    if k < i {
                        assert(!frames@[k].is_user_code);
                    }
                    if i < k {
                        assert(!frames@[i as int].is_user_code);
                    }
                    assert(has_user_code_spec(frames@));
                } else {
                    assert(!has_user_code_spec(frames@));
                }
            }
            match pick {
                Some(k) => {
                    name = frames[k].function.clone();
                    file = match &frames[k].file {
                        Some(x) => Some(x.clone()),
                        None => None,
                    };
                    line = frames[k].line;
                },
                None => {},
            }
        },
        None => {},
    }
    TraceEvent {
        name,
        worker_id: event.worker_id,
        tid: event.tid,
        timestamp_ns: event.timestamp_ns,
        cpu: event.cpu_id,
        detection_method: Some(event.detection_method as u32),
        file,
        line,
        stack_id: event.stack_id,
        call_stack,
    }
}

/// The frame built for the address `addr` of a stack: adjusted for the
/// executable's range and, inside the executable, from what `resolve` gave
/// for its file offset.
pub open spec fn frame_resolved<F: Fn(u64) -> Option<InlinedFrame>>(
    addr: u64,
    memory_range: Option<MemoryRange>,
    resolve: F,
    f: StackFrame,
) -> bool {
    let (offset, in_executable) = adjusted(memory_range, addr);
    if in_executable {
        exists|res: Option<InlinedFrame>| #[trigger] call_ensures(resolve, (offset,), res) && frame_spec(addr, true, res, f)
    } else {
        frame_spec(addr, false, None, f)
    }
}

/// `frames` are the frames of the addresses of `ips` before the first null
/// one, in order.
pub open spec fn stack_resolved<F: Fn(u64) -> Option<InlinedFrame>>(
    ips: Seq<u64>,
    memory_range: Option<MemoryRange>,
    resolve: F,
    frames: Seq<StackFrame>,
) -> bool {
    &&& frames.len() <= ips.len()
    &&& forall|k: int| 0 <= k < frames.len() ==> ips[k] != 0
    &&& frames.len() < ips.len() ==> ips[frames.len() as int] == 0
    &&& forall|k: int| 0 <= k < frames.len() ==> frame_resolved(ips[k], memory_range, resolve, #[trigger] frames[k])
}

/// The frames of a stack: one per address before the first null one, each
/// resolved inside the executable (through `resolve`, which gives the
/// innermost frame found at a file offset) and marked as a library address
/// outside it.
pub fn resolve_stack_frames<F: Fn(u64) -> Option<InlinedFrame>>(
    ips: &[u64],
    memory_range: Option<MemoryRange>,
    resolve: &F,
) -> (r: Vec<StackFrame>)
    requires
        forall|a: u64| call_requires(*resolve, (a,)),
    ensures
        stack_resolved(ips@, memory_range, *resolve, r@),
{
    let mut out: Vec<StackFrame> = Vec::new();
    let mut i: usize = 0;
    while i < ips.len() && ips[i] != 0
        invariant
            i <= ips.len(),
            out@.len() == i,
            forall|a: u64| call_requires(*resolve, (a,)),
            forall|k: int| 0 <= k < i ==> ips@[k] != 0,
            forall|k: int| 0 <= k < i ==> frame_resolved(ips@[k], memory_range, *resolve, #[trigger] out@[k]),
        decreases ips.len() - i,
    {
        let addr = ips[i];
        let (offset, in_executable) = adjust_address(memory_range, addr);
        let frame = if in_executable {
            let res = resolve(offset);
            let f = stack_frame_for(addr, true, res.as_ref());
            proof {
                assert(call_ensures(*resolve, (offset,), res) && frame_spec(addr, true, res, f));
            }
            f
        } else {
            stack_frame_for(addr, false, None)
        };
        out.push(frame);
        i += 1;
    }
    out
}

/// The resolved stack of `stack_id`: the cached one, else fetched with
/// `fetch_ips` (the addresses stored for it; `None` when the kernel no
/// longer has them), resolved and cached. A negative id, a stack that is
/// gone, or one without any address give `None`, and nothing is cached.
pub fn resolve_full_stack<G: FnOnce() -> Option<Vec<u64>>, F: Fn(u64) -> Option<InlinedFrame>>(
    cache: &mut StackCache,
    stack_id: i64,
    fetch_ips: G,
    memory_range: Option<MemoryRange>,
    resolve: &F,
) -> (r: Option<Arc<Vec<StackFrame>>>)
    requires
        call_requires(fetch_ips, ()),
        forall|a: u64| call_requires(*resolve, (a,)),
    ensures
        old(cache).cached().contains_key(stack_id) ==> r == Some(old(cache).cached()[stack_id])
            && final(cache).cached() == old(cache).cached(),
        !old(cache).cached().contains_key(stack_id) && stack_id < 0 ==> r is None
            && final(cache).cached() == old(cache).cached(),
        !old(cache).cached().contains_key(stack_id) && stack_id >= 0 ==> exists|ips: Option<Vec<u64>>|
            #[trigger] call_ensures(fetch_ips, (), ips) && match ips {
                None => r is None && final(cache).cached() == old(cache).cached(),
                Some(v) => if v@.len() == 0 || v@[0] == 0 {
                    r is None && final(cache).cached() == old(cache).cached()
                } else {
                    r matches Some(s) && stack_resolved(v@, memory_range, *resolve, (*s)@)
                        && final(cache).cached() == old(cache).cached().insert(stack_id, s)
                },
            },
{
    match cache.get(stack_id) {
        Some(cached) => {
            return Some(cached);
        },
        None => {},
    }
    if stack_id < 0 {
        return None;
    }
    let ips = fetch_ips();
    let ghost fetched = ips;
    match ips {
        None => None,
        Some(v) => {
            let frames = resolve_stack_frames(v.as_slice(), memory_range, resolve);
            if frames.len() == 0 {
                proof {
                    assert(call_ensures(fetch_ips, (), fetched));
                }
                None
            } else {
                let s = cache.insert(stack_id, frames);
                proof {
                    assert(call_ensures(fetch_ips, (), fetched));
                }
                Some(s)
            }
        },
    }
}

/// A frame resolved inside the executable keeps the resolved name, file and
/// line, and its origin is the classification of its name together with its
/// source file: a file in the cargo registry makes it a runtime or
/// third-party frame and never user code, a file under a rustup toolchain
/// (outside the registry) a standard-library frame; it counts as user code
/// exactly when its origin is user code.
pub proof fn law_resolved_frame_origin(addr: u64, r: InlinedFrame, f: StackFrame)
    requires
        frame_spec(addr, true, Some(r), f),
    ensures
        f.function@ == r.function@,
        f.is_user_code <==> f.origin == FrameOrigin::UserCode,
        match r.location {
            Some(l) => f.line == l.line && match l.file {
                Some(x) => {
                    &&& f.file matches Some(y) && y@ == x@
                    &&& f.origin == frame_origin(r.function@, Some(x@), true)
                    &&& !crate::classification::is_unresolved_name(r.function@) && (contains_seq(x@, ".cargo/registry/"@)
                        || contains_seq(x@, ".cargo\\registry\\"@)) ==> !f.is_user_code && (f.origin == FrameOrigin::RuntimeLib
                        || f.origin == FrameOrigin::ThirdParty)
                    &&& !crate::classification::is_unresolved_name(r.function@) && !(contains_seq(x@, ".cargo/registry/"@)
                        || contains_seq(x@, ".cargo\\registry\\"@)) && contains_seq(x@, ".rustup/toolchains/"@)
                        ==> f.origin == FrameOrigin::StdLib
                },
                None => f.file is None && f.origin == frame_origin(r.function@, None, true),
            },
            None => f.file is None && f.line is None && f.origin == frame_origin(r.function@, None, true),
        },
{
    match r.location {
        Some(l) => match l.file {
            Some(x) => {
                crate::classification::law_path_decides_origin(r.function@, x@, true);
            },
            None => {},
        },
        None => {},
    }
}

} // verus!
