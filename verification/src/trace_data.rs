//! The data of a live profiling session: resolved stack frames and their
//! cache, the samples taken, the accumulator they flow into and the snapshot
//! handed to the display.
//!
//! Timestamps are the kernel's monotonic clock, in nanoseconds.
use crate::classification::FrameOrigin;
use crate::text::str_eq;
use std::sync::Arc;
use vstd::prelude::*;

verus! {

// =============================================================================
// STACK FRAME AND CACHE
// =============================================================================

/// A single frame in a resolved call stack.
pub struct StackFrame {
    /// Fully qualified function name.
    pub function: String,
    /// Source file path, if debug info is available.
    pub file: Option<String>,
    /// Line number in the source file, if debug info is available.
    pub line: Option<u32>,
    /// Where the frame's code comes from.
    pub origin: FrameOrigin,
    /// Whether the frame is user code (`origin.is_user_code()`).
    pub is_user_code: bool,
}

impl Clone for StackFrame {
    fn clone(&self) -> (r: Self)
        ensures
            r == *self,
    {
        StackFrame {
            function: self.function.clone(),
            file: match &self.file {
                Some(f) => Some(f.clone()),
                None => None,
            },
            line: self.line,
            origin: self.origin,
            is_user_code: self.is_user_code,
        }
    }
}

/// Resolved call stacks, keyed by eBPF stack id, shared by every sample
/// taken with that stack.
pub struct StackCache {
    stacks: std::collections::HashMap<i64, Arc<Vec<StackFrame>>>,
}

impl StackCache {
    /// The cached stacks by id.
    pub closed spec fn cached(&self) -> Map<i64, Arc<Vec<StackFrame>>> {
        self.stacks@
    }

    /// Creates an empty cache.
    pub fn new() -> (r: Self)
        ensures
            r.cached() == Map::<i64, Arc<Vec<StackFrame>>>::empty(),
    {
        StackCache { stacks: std::collections::HashMap::new() }
    }

    /// The cached stack for `stack_id`, if it was resolved before.
    pub fn get(&self, stack_id: i64) -> (r: Option<Arc<Vec<StackFrame>>>)
        ensures
            r == lookup(self.cached(), stack_id),
    {
        match self.stacks.get(&stack_id) {
            Some(stack) => Some(Arc::clone(stack)),
            None => None,
        }
    }

    /// Caches a newly resolved stack and returns it.
    pub fn insert(&mut self, stack_id: i64, stack: Vec<StackFrame>) -> (r: Arc<Vec<StackFrame>>)
        ensures
            *r == stack,
            final(self).cached() == old(self).cached().insert(stack_id, r),
    {
        let arc = Arc::new(stack);
        self.stacks.insert(stack_id, Arc::clone(&arc));
        arc
    }

    /// The cached stack for `stack_id`, resolving and caching it with
    /// `resolve_fn` when it is not cached yet.
    pub fn get_or_insert_with<F>(&mut self, stack_id: i64, resolve_fn: F) -> (r: Arc<
        Vec<StackFrame>,
    >) where F: FnOnce() -> Vec<StackFrame>
        requires
            call_requires(resolve_fn, ()),
        ensures
            old(self).cached().contains_key(stack_id) ==> r == old(self).cached()[stack_id]
                && final(self).cached() == old(self).cached(),
            !old(self).cached().contains_key(stack_id) ==> call_ensures(resolve_fn, (), *r)
                && final(self).cached() == old(self).cached().insert(stack_id, r),
    {
        match self.stacks.get(&stack_id) {
            Some(existing) => Arc::clone(existing),
            None => {
                let stack = resolve_fn();
                self.insert(stack_id, stack)
            },
        }
    }

    /// Number of cached stacks.
    pub fn len(&self) -> (r: usize)
        ensures
            r == self.cached().len(),
    {
        self.stacks.len()
    }

    /// Whether nothing is cached.
    pub fn is_empty(&self) -> (r: bool)
        ensures
            r == (self.cached().len() == 0),
    {
        let r = self.stacks.is_empty();
        proof {
            if !r {
                let k = choose|k: i64| self.stacks@.contains_key(k);
                assert(self.stacks@.dom().contains(k));
                assert(self.stacks@.dom().len() > 0) by {
                    vstd::set_lib::lemma_set_empty_equivalency_len(self.stacks@.dom());
                }
            } else {
                assert(self.stacks@.dom() =~= Set::<i64>::empty());
            }
        }
        r
    }
}

impl Default for StackCache {
    fn default() -> (r: Self)
        ensures
            r.cached() == Map::<i64, Arc<Vec<StackFrame>>>::empty(),
    {
        StackCache::new()
    }
}

/// The stack cached for `stack_id` in `m`, if any.
pub open spec fn lookup(m: Map<i64, Arc<Vec<StackFrame>>>, stack_id: i64) -> Option<
    Arc<Vec<StackFrame>>,
> {
    if m.contains_key(stack_id) {
        Some(m[stack_id])
    } else {
        None
    }
}

/// A stack read after it was cached is the stack that was cached; the
/// other ids are unaffected.
pub proof fn lemma_get_after_insert(
    m: Map<i64, Arc<Vec<StackFrame>>>,
    stack_id: i64,
    stack: Arc<Vec<StackFrame>>,
    other: i64,
)
    ensures
        lookup(m.insert(stack_id, stack), stack_id) == Some(stack),
        other != stack_id ==> lookup(m.insert(stack_id, stack), other) == lookup(m, other),
{
}

/// Once a stack is cached, `get_or_insert_with` keeps answering with it
/// and leaves the cache as it is.
pub proof fn lemma_cached_stack_is_stable(m: Map<i64, Arc<Vec<StackFrame>>>, stack_id: i64)
    requires
        m.contains_key(stack_id),
    ensures
        lookup(m, stack_id) == Some(m[stack_id]),
        m.insert(stack_id, m[stack_id]) == m,
{
    assert(m.insert(stack_id, m[stack_id]) =~= m);
}

// =============================================================================
// TRACE EVENT
// =============================================================================

/// A single profiling sample.
pub struct TraceEvent {
    /// Function at the top of the stack.
    pub name: String,
    /// Tokio worker index.
    pub worker_id: u32,
    /// Linux thread id.
    pub tid: u32,
    /// Time of the sample on the kernel's monotonic clock, in nanoseconds.
    pub timestamp_ns: u64,
    /// CPU core where the sample was taken.
    pub cpu: u32,
    /// How the event was detected (scheduler, tracepoint, sampling).
    pub detection_method: Option<u32>,
    /// Source file of the top frame.
    pub file: Option<String>,
    /// Line of the top frame.
    pub line: Option<u32>,
    /// eBPF id of the call stack; samples share `call_stack` exactly when
    /// they share this id.
    pub stack_id: i64,
    /// Resolved call stack, shared through the stack cache.
    pub call_stack: Option<Arc<Vec<StackFrame>>>,
}

impl Clone for TraceEvent {
    fn clone(&self) -> (r: Self)
        ensures
            r == *self,
    {
        TraceEvent {
            name: self.name.clone(),
            worker_id: self.worker_id,
            tid: self.tid,
            timestamp_ns: self.timestamp_ns,
            cpu: self.cpu,
            detection_method: self.detection_method,
            file: match &self.file {
                Some(f) => Some(f.clone()),
                None => None,
            },
            line: self.line,
            stack_id: self.stack_id,
            call_stack: match &self.call_stack {
                Some(s) => Some(Arc::clone(s)),
                None => None,
            },
        }
    }
}

// =============================================================================
// TRACE DATA AND LIVE DATA
// =============================================================================

/// A snapshot of the session for rendering.
pub struct TraceData {
    /// All samples of the session, in arrival order.
    pub events: Vec<TraceEvent>,
    /// The worker ids seen, in increasing order.
    pub workers: Vec<u32>,
    /// Nanoseconds from the first sample to the latest one.
    pub duration_ns: i128,
}

/// Strictly increasing.
pub open spec fn increasing(s: Seq<u32>) -> bool {
    forall|i: int, j: int| 0 <= i < j < s.len() ==> s[i] < s[j]
}

/// The accumulator that samples flow into.
pub struct LiveData {
    events: Vec<TraceEvent>,
    workers: Vec<u32>,
    start_time: Option<u64>,
    latest_time: Option<u64>,
    /// Nanoseconds from the first sample to the latest one.
    pub duration_ns: i128,
}

impl LiveData {
    /// The samples so far, in arrival order.
    pub closed spec fn events(&self) -> Seq<TraceEvent> {
        self.events@
    }

    /// The worker ids seen so far, in increasing order.
    pub closed spec fn workers(&self) -> Seq<u32> {
        self.workers@
    }

    /// Nanoseconds from the first sample to the latest one.
    pub closed spec fn duration(&self) -> i128 {
        self.duration_ns
    }

    /// The accumulator's invariant: the workers are exactly those of the
    /// samples, in increasing order, and the duration runs from the first
    /// sample to the latest one.
    pub closed spec fn wf(&self) -> bool {
        &&& increasing(self.workers@)
        &&& forall|w: u32|
            self.workers@.contains(w) <==> exists|i: int|
                0 <= i < self.events@.len() && #[trigger] self.events@[i].worker_id == w
        &&& if self.events@.len() == 0 {
            self.start_time is None && self.latest_time is None && self.duration_ns == 0
        } else {
            self.start_time == Some(self.events@[0].timestamp_ns) && self.latest_time == Some(
                self.events@.last().timestamp_ns,
            ) && self.duration_ns == self.events@.last().timestamp_ns - self.events@[0].timestamp_ns
        }
    }

    /// Creates an empty accumulator.
    pub fn new() -> (r: Self)
        ensures
            r.wf(),
            r.events().len() == 0,
            r.workers().len() == 0,
            r.duration() == 0,
    {
        LiveData {
            events: Vec::new(),
            workers: Vec::new(),
            start_time: None,
            latest_time: None,
            duration_ns: 0,
        }
    }

    /// Adds a sample.
    pub fn add_event(&mut self, event: TraceEvent)
        requires
            old(self).wf(),
        ensures
            final(self).wf(),
            final(self).events() == old(self).events().push(event),
            forall|w: u32|
                #[trigger] final(self).workers().contains(w) <==> (old(self).workers().contains(w)
                    || w == event.worker_id),
            final(self).duration() == event.timestamp_ns - final(self).events()[0].timestamp_ns,
    {
        let ts = event.timestamp_ns;
        let w = event.worker_id;
        let ghost old_events = self.events@;
        let ghost old_workers = self.workers@;
        if self.start_time.is_none() {
            self.start_time = Some(ts);
        }
        self.latest_time = Some(ts);
        // find the position of w among the sorted workers
        let mut p: usize = 0;
        while p < self.workers.len() && self.workers[p] < w
            invariant
                p <= self.workers.len(),
                self.workers@ == old_workers,
                increasing(old_workers),
                forall|j: int| 0 <= j < p ==> old_workers[j] < w,
            decreases self.workers.len() - p,
        {
            p += 1;
        }
        if !(p < self.workers.len() && self.workers[p] == w) {
            self.workers.insert(p, w);
            proof {
                let nw = self.workers@;
                assert(nw =~= old_workers.insert(p as int, w));
                assert forall|i: int, j: int| 0 <= i < j < nw.len() implies nw[i] < nw[j] by {
                    if j < p {
                    } else if j == p {
                    } else if i < p {
                        assert(nw[j] == old_workers[j - 1]);
                        if j - 1 > p {
                            assert(old_workers[p as int] < old_workers[j - 1]);
                        }
                    } else if i == p {
                        assert(nw[j] == old_workers[j - 1]);
                        if j - 1 > p {
                            assert(old_workers[p as int] < old_workers[j - 1]);
                        }
                    } else {
                        assert(nw[i] == old_workers[i - 1]);
                        assert(nw[j] == old_workers[j - 1]);
                    }
                }
                assert forall|x: u32| nw.contains(x) <==> (old_workers.contains(x) || x == w) by {
                    if nw.contains(x) {
                        let q = choose|q: int| 0 <= q < nw.len() && nw[q] == x;
                        if q < p {
                            assert(old_workers[q] == x);
                        } else if q > p {
                            assert(old_workers[q - 1] == x);
                        }
                    }
                    if old_workers.contains(x) {
                        let q = choose|q: int| 0 <= q < old_workers.len() && old_workers[q] == x;
                        if q < p {
                            assert(nw[q] == x);
                        } else {
                            assert(nw[q + 1] == x);
                        }
                    }
                    if x == w {
                        assert(nw[p as int] == x);
                    }
                }
            }
        } else {
            assert(old_workers[p as int] == w);
        }
        self.events.push(event);
        let first = match self.start_time {
            Some(f) => f,
            None => ts,
        };
        self.duration_ns = ts as i128 - first as i128;
        proof {
            let ne = self.events@;
            assert(ne == old_events.push(event));
            assert(ne[0].timestamp_ns == first) by {
                if old_events.len() > 0 {
                    assert(ne[0] == old_events[0]);
                }
            }
            assert forall|x: u32|
                self.workers@.contains(x) <==> exists|i: int|
                    0 <= i < ne.len() && #[trigger] ne[i].worker_id == x by {
                if self.workers@.contains(x) {
                    if x == w {
                        assert(ne[old_events.len() as int].worker_id == x);
                    } else {
                        assert(old_workers.contains(x));
                        let i = choose|i: int|
                            0 <= i < old_events.len() && #[trigger] old_events[i].worker_id == x;
                        assert(ne[i].worker_id == x);
                    }
                }
                if exists|i: int| 0 <= i < ne.len() && #[trigger] ne[i].worker_id == x {
                    let i = choose|i: int| 0 <= i < ne.len() && #[trigger] ne[i].worker_id == x;
                    if i < old_events.len() {
                        assert(old_events[i].worker_id == x);
                        assert(old_workers.contains(x));
                    }
                }
            }
        }
    }

    /// Number of samples collected.
    pub fn event_count(&self) -> (r: usize)
        ensures
            r == self.events().len(),
    {
        self.events.len()
    }

    /// A snapshot of the session.
    pub fn as_trace_data(&self) -> (r: TraceData)
        ensures
            r.events@ == self.events(),
            r.workers@ == self.workers(),
            r.duration_ns == self.duration(),
    {
        let mut events: Vec<TraceEvent> = Vec::new();
        let mut i: usize = 0;
        while i < self.events.len()
            invariant
                i <= self.events.len(),
                events@ == self.events@.subrange(0, i as int),
            decreases self.events.len() - i,
        {
            events.push(self.events[i].clone());
            i += 1;
            assert(events@ =~= self.events@.subrange(0, i as int));
        }
        assert(self.events@.subrange(0, self.events.len() as int) =~= self.events@);
        let mut workers: Vec<u32> = Vec::new();
        let mut j: usize = 0;
        while j < self.workers.len()
            invariant
                j <= self.workers.len(),
                workers@ == self.workers@.subrange(0, j as int),
            decreases self.workers.len() - j,
        {
            workers.push(self.workers[j]);
            j += 1;
            assert(workers@ =~= self.workers@.subrange(0, j as int));
        }
        assert(self.workers@.subrange(0, self.workers.len() as int) =~= self.workers@);
        TraceData { events, workers, duration_ns: self.duration_ns }
    }
}

/// `a` and `b` name the same workers, in any order and with any repeats.
pub open spec fn same_members(a: Seq<u32>, b: Seq<u32>) -> bool {
    forall|x: u32| a.contains(x) <==> b.contains(x)
}

fn contains_id(s: &[u32], x: u32) -> (r: bool)
    ensures
        r == s@.contains(x),
{
    let mut i: usize = 0;
    while i < s.len()
        invariant
            i <= s.len(),
            forall|j: int| 0 <= j < i ==> s@[j] != x,
        decreases s.len() - i,
    {
        if s[i] == x {
            assert(s@[i as int] == x);
            return true;
        }
        i += 1;
    }
    false
}

fn all_contained(a: &[u32], b: &[u32]) -> (r: bool)
    ensures
        r == (forall|x: u32| a@.contains(x) ==> b@.contains(x)),
{
    let mut i: usize = 0;
    while i < a.len()
        invariant
            i <= a.len(),
            forall|j: int| 0 <= j < i ==> b@.contains(#[trigger] a@[j]),
        decreases a.len() - i,
    {
        if !contains_id(b, a[i]) {
            assert(a@.contains(a@[i as int]));
            return false;
        }
        i += 1;
    }
    assert forall|x: u32| a@.contains(x) implies b@.contains(x) by {
        let j = choose|j: int| 0 <= j < a@.len() && a@[j] == x;
    }
    true
}

/// Whether `a` and `b` name the same workers.
pub fn same_workers(a: &[u32], b: &[u32]) -> (r: bool)
    ensures
        r == same_members(a@, b@),
{
    let ab = all_contained(a, b);
    let ba = all_contained(b, a);
    ab && ba
}

/// The samples of `es` taken on one of the workers `ws`, in order.
pub open spec fn events_on(es: Seq<TraceEvent>, ws: Seq<u32>) -> Seq<TraceEvent>
    decreases es.len(),
{
    if es.len() == 0 {
        seq![]
    } else {
        let prev = events_on(es.drop_last(), ws);
        if ws.contains(es.last().worker_id) {
            prev.push(es.last())
        } else {
            prev
        }
    }
}

/// The samples taken on one of the workers `ws`, in order.
pub fn events_of_workers(events: &Vec<TraceEvent>, ws: &[u32]) -> (r: Vec<TraceEvent>)
    ensures
        r@ == events_on(events@, ws@),
{
    let mut out: Vec<TraceEvent> = Vec::new();
    let mut i: usize = 0;
    while i < events.len()
        invariant
            i <= events.len(),
            out@ == events_on(events@.subrange(0, i as int), ws@),
        decreases events.len() - i,
    {
        let e = &events[i];
        let mut found = false;
        let mut k: usize = 0;
        while k < ws.len()
            invariant
                k <= ws.len(),
                found <==> exists|j: int| 0 <= j < k && ws@[j] == e.worker_id,
            decreases ws.len() - k,
        {
            if ws[k] == e.worker_id {
                found = true;
            }
            k += 1;
        }
        let ghost pre = events@.subrange(0, i as int);
        assert(events@.subrange(0, i + 1).drop_last() =~= pre);
        proof {
            if found {
                let j = choose|j: int| 0 <= j < ws.len() && ws@[j] == e.worker_id;
                assert(ws@.contains(e.worker_id));
            }
        }
        if found {
            out.push(e.clone());
        }
        i += 1;
    }
    assert(events@.subrange(0, events.len() as int) =~= events@);
    out
}

// =============================================================================
// TRACE FILES
// =============================================================================

/// One event of a saved trace (Chrome trace event format), as read from the
/// file: each field when it is present, the timestamp already in
/// nanoseconds (0 when absent).
pub struct TraceRecord {
    /// The event's phase (`ph`); samples are the begin events, `B`.
    pub phase: Option<String>,
    /// The function (`name`).
    pub name: Option<String>,
    /// `args.worker_id`.
    pub worker_id: Option<u64>,
    /// `tid`.
    pub tid: Option<u64>,
    /// `ts`, in nanoseconds.
    pub timestamp_ns: u64,
    /// `args.cpu_id`.
    pub cpu_id: Option<u64>,
    /// `args.detection_method`.
    pub detection_method: Option<u64>,
    /// `args.file`.
    pub file: Option<String>,
    /// `args.line`.
    pub line: Option<u64>,
}

/// Whether a record is a sample (a begin event).
pub open spec fn is_begin(r: TraceRecord) -> bool {
    r.phase matches Some(p) && p@ == "B"@
}

/// `e` is the sample of record `r`: a missing name reads `unknown`, a
/// missing number 0, the numbers cut to 32 bits; no stack.
pub open spec fn sample_of_record(r: TraceRecord, e: TraceEvent) -> bool {
    &&& e.name@ == match r.name {
        Some(n) => n@,
        None => "unknown"@,
    }
    &&& e.worker_id == match r.worker_id {
        Some(w) => w as u32,
        None => 0u32,
    }
    &&& e.tid == match r.tid {
        Some(t) => t as u32,
        None => 0u32,
    }
    &&& e.timestamp_ns == r.timestamp_ns
    &&& e.cpu == match r.cpu_id {
        Some(c) => c as u32,
        None => 0u32,
    }
    &&& e.detection_method == match r.detection_method {
        Some(d) => Some(d as u32),
        None => None,
    }
    &&& e.file == r.file
    &&& e.line == match r.line {
        Some(l) => Some(l as u32),
        None => None,
    }
    &&& e.stack_id == -1
    &&& e.call_stack is None
}

/// `es` are the samples of the records `rs`, in order: one per begin event.
pub open spec fn samples_of_records(rs: Seq<TraceRecord>, es: Seq<TraceEvent>) -> bool
    decreases rs.len(),
{
    if rs.len() == 0 {
        es.len() == 0
    } else if is_begin(rs.last()) {
        es.len() > 0 && samples_of_records(rs.drop_last(), es.drop_last()) && sample_of_record(rs.last(), es.last())
    } else {
        samples_of_records(rs.drop_last(), es)
    }
}

/// The largest timestamp of the samples, 0 when there are none.
pub open spec fn max_timestamp(es: Seq<TraceEvent>) -> u64
    decreases es.len(),
{
    if es.len() == 0 {
        0
    } else {
        let m = max_timestamp(es.drop_last());
        if es.last().timestamp_ns > m {
            es.last().timestamp_ns
        } else {
            m
        }
    }
}

fn sample_from_record(r: &TraceRecord) -> (e: TraceEvent)
    ensures
        sample_of_record(*r, e),
{
    proof {
        reveal_strlit("unknown");
    }
    TraceEvent {
        name: match &r.name {
            Some(n) => n.clone(),
            None => "unknown".to_string(),
        },
        worker_id: match r.worker_id {
            Some(w) => w as u32,
            None => 0,
        },
        tid: match r.tid {
            Some(t) => t as u32,
            None => 0,
        },
        timestamp_ns: r.timestamp_ns,
        cpu: match r.cpu_id {
            Some(c) => c as u32,
            None => 0,
        },
        detection_method: match r.detection_method {
            Some(d) => Some(d as u32),
            None => None,
        },
        file: match &r.file {
            Some(f) => Some(f.clone()),
            None => None,
        },
        line: match r.line {
            Some(l) => Some(l as u32),
            None => None,
        },
        stack_id: -1,
        call_stack: None,
    }
}

/// The session saved in a trace: its samples (the begin events, in order),
/// the workers they were taken on in increasing order, and as duration the
/// largest timestamp.
pub fn trace_from_records(records: &Vec<TraceRecord>) -> (r: TraceData)
    ensures
        samples_of_records(records@, r.events@),
        increasing(r.workers@),
        forall|w: u32|
            r.workers@.contains(w) <==> exists|i: int| 0 <= i < r.events@.len() && #[trigger] r.events@[i].worker_id == w,
        r.duration_ns == max_timestamp(r.events@),
{
    let mut live = LiveData::new();
    let mut max_ts: u64 = 0;
    let mut i: usize = 0;
    while i < records.len()
        invariant
            i <= records.len(),
            live.wf(),
            samples_of_records(records@.subrange(0, i as int), live.events()),
            max_ts == max_timestamp(live.events()),
        decreases records.len() - i,
    {
        let rec = &records[i];
        let ghost pre = records@.subrange(0, i as int);
        assert(records@.subrange(0, i + 1).drop_last() =~= pre);
        let begin = match &rec.phase {
            Some(p) => str_eq(p.as_str(), "B"),
            None => false,
        };
        proof {
            reveal_strlit("B");
        }
        if begin {
            let e = sample_from_record(rec);
            let ts = e.timestamp_ns;
            let ghost old_events = live.events();
            live.add_event(e);
            assert(live.events().drop_last() =~= old_events);
            if ts > max_ts {
                max_ts = ts;
            }
        }
        i += 1;
    }
    assert(records@.subrange(0, records.len() as int) =~= records@);
    let t = live.as_trace_data();
    TraceData { events: t.events, workers: t.workers, duration_ns: max_ts as i128 }
}

} // verus!
