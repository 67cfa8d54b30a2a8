//! Timeline export in the Chrome trace event format: one begin or end event
//! per execution event, named after the function on top of the stack, with
//! timestamps relative to the first event, and a thread-name record per
//! worker thread.
use crate::common::{TaskEvent, TRACE_EXECUTION_END, TRACE_EXECUTION_START};
use crate::profiling::stack_resolver::{adjust_address, adjusted};
use crate::symbolization::memory_maps::MemoryRange;
use crate::symbolization::symbolizer::InlinedFrame;
use crate::text::{dec_string, hex_string, push_dec, push_hex, push_str};
use vstd::prelude::*;

verus! {

/// The arguments attached to a trace event.
pub struct TraceArgs {
    /// Worker index.
    pub worker_id: u32,
    /// CPU core.
    pub cpu_id: u32,
    /// Tokio task id, when known (begin events only).
    pub task_id: Option<u64>,
    /// Detection method, when set.
    pub detection_method: Option<u8>,
    /// Source file of the function (begin events only).
    pub file: Option<String>,
    /// Source line of the function (begin events only).
    pub line: Option<u32>,
}

/// Phase of a trace event.
#[derive(Debug, Clone, Copy, PartialEq, Eq, Structural)]
pub enum Phase {
    /// `B`: a span begins.
    Begin,
    /// `E`: a span ends.
    End,
}

/// One event of the trace.
pub struct ChromeTraceEvent {
    /// Function name, or `execution`.
    pub name: String,
    /// Begin or end.
    pub ph: Phase,
    /// Nanoseconds since the first event.
    pub ts_ns: u64,
    /// Process id.
    pub pid: u32,
    /// Thread id.
    pub tid: u32,
    /// Attached arguments.
    pub args: TraceArgs,
}

/// A resolved symbol: function name, source file and line.
pub struct Symbol {
    /// Function name.
    pub function: String,
    /// Source file.
    pub file: Option<String>,
    /// Source line.
    pub line: Option<u32>,
}

/// The exporter's state.
pub struct ChromeTraceExporter {
    events: Vec<ChromeTraceEvent>,
    symbol_cache: Vec<(i64, Symbol)>,
    memory_range: Option<MemoryRange>,
    start_timestamp_ns: Option<u64>,
}

// =============================================================================
// SPECIFICATION
// =============================================================================

/// The symbol text for an address: what the symbolizer found inside the
/// executable, the bare address when it found nothing, a shared-library
/// marker outside the executable.
pub open spec fn symbol_spec(addr: u64, in_executable: bool, resolved: Option<InlinedFrame>, s: Symbol) -> bool {
    if in_executable {
        match resolved {
            Some(r) => s.function@ == r.function@ && (match s.file {
                Some(f) => Some(f@),
                None => None,
            }) == (match r.location {
                Some(l) => match l.file {
                    Some(f) => Some(f@),
                    None => None,
                },
                None => None,
            }) && s.line == (match r.location {
                Some(l) => l.line,
                None => None,
            }),
            None => s.function@ == "0x"@ + hex_string(addr as nat) && s.file is None && s.line is None,
        }
    } else {
        s.function@ == "<shared:0x"@ + hex_string(addr as nat) + ">"@ && s.file is None && s.line is None
    }
}

/// The symbol cached for stack `id`: its latest entry in the cache.
pub open spec fn cached_symbol(cache: Seq<(i64, Symbol)>, id: i64) -> Option<Symbol>
    decreases cache.len(),
{
    if cache.len() == 0 {
        None
    } else if cache.last().0 == id {
        Some(cache.last().1)
    } else {
        cached_symbol(cache.drop_last(), id)
    }
}

/// A trace event carries the name and source location of a symbol.
pub open spec fn named_after(e: ChromeTraceEvent, s: Symbol) -> bool {
    e.name@ == s.function@ && e.args.file == s.file && e.args.line == s.line
}

proof fn lemma_cached_symbol_suffix(cache: Seq<(i64, Symbol)>, id: i64, k: int)
    requires
        0 <= k <= cache.len(),
        forall|j: int| k <= j < cache.len() ==> (#[trigger] cache[j]).0 != id,
    ensures
        cached_symbol(cache, id) == cached_symbol(cache.subrange(0, k), id),
    decreases cache.len() - k,
{
    if k < cache.len() {
        let pre = cache.drop_last();
        assert(cache.last() == cache[cache.len() - 1]);
        lemma_cached_symbol_suffix(pre, id, k);
        assert(pre.subrange(0, k) =~= cache.subrange(0, k));
    } else {
        assert(cache.subrange(0, k) =~= cache);
    }
}

/// Nanoseconds from `start` to `ts`, or 0 for an event before the start.
pub open spec fn relative_ts(ts: u64, start: u64) -> u64 {
    if ts >= start {
        (ts - start) as u64
    } else {
        0
    }
}

// =============================================================================
// IMPLEMENTATION
// =============================================================================

/// The symbol for an address of a stack, from what the symbolizer found
/// there (consulted only for addresses of the executable).
pub fn symbol_for(addr: u64, in_executable: bool, resolved: Option<&InlinedFrame>) -> (s: Symbol)
    ensures
        symbol_spec(addr, in_executable, match resolved {
            Some(r) => Some(*r),
            None => None,
        }, s),
{
    if in_executable {
        match resolved {
            Some(r) => {
                let file = match &r.location {
                    Some(l) => match &l.file {
                        Some(f) => Some(f.clone()),
                        None => None,
                    },
                    None => None,
                };
                let line = match &r.location {
                    Some(l) => l.line,
                    None => None,
                };
                Symbol { function: r.function.clone(), file, line }
            },
            None => {
                let mut f = String::new();
                push_str(&mut f, "0x");
                push_hex(&mut f, addr);
                Symbol { function: f, file: None, line: None }
            },
        }
    } else {
        let mut f = String::new();
        push_str(&mut f, "<shared:0x");
        push_hex(&mut f, addr);
        push_str(&mut f, ">");
        Symbol { function: f, file: None, line: None }
    }
}

fn clone_symbol(s: &Symbol) -> (r: Symbol)
    ensures
        r.function@ == s.function@ && r.file == s.file && r.line == s.line,
{
    Symbol {
        function: s.function.clone(),
        file: match &s.file {
            Some(f) => Some(f.clone()),
            None => None,
        },
        line: s.line,
    }
}

impl ChromeTraceExporter {
    /// The events recorded, in order.
    pub closed spec fn events(&self) -> Seq<ChromeTraceEvent> {
        self.events@
    }

    /// The cached symbols by stack id, oldest first.
    pub closed spec fn cache(&self) -> Seq<(i64, Symbol)> {
        self.symbol_cache@
    }

    /// The timestamp of the first event, once there is one.
    pub closed spec fn start(&self) -> Option<u64> {
        self.start_timestamp_ns
    }

    /// The executable's address range, if set.
    pub closed spec fn range(&self) -> Option<MemoryRange> {
        self.memory_range
    }

    /// An exporter with no events.
    pub fn new() -> (r: Self)
        ensures
            r.events().len() == 0,
            r.cache().len() == 0,
            r.start() is None,
            r.range() is None,
    {
        ChromeTraceExporter { events: Vec::new(), symbol_cache: Vec::new(), memory_range: None, start_timestamp_ns: None }
    }

    /// Sets the executable's address range for address adjustment.
    pub fn set_memory_range(&mut self, range: MemoryRange)
        ensures
            final(self).range() == Some(range),
            final(self).events() == old(self).events(),
            final(self).start() == old(self).start(),
            final(self).cache() == old(self).cache(),
    {
        self.memory_range = Some(range);
    }

    /// Where to look up the symbol of an event, when it needs one: a begin
    /// event with a stack whose symbol is not cached yet, at its top frame
    /// address. Gives the address to resolve and whether it lies in the
    /// executable (with its file offset).
    pub fn symbol_request(&self, event: &TaskEvent, top_frame_addr: Option<u64>) -> (r: Option<(u64, u64, bool)>)
        ensures
            match r {
                Some((addr, offset, in_exec)) => event.event_type == TRACE_EXECUTION_START && event.stack_id >= 0
                    && top_frame_addr == Some(addr) && cached_symbol(self.cache(), event.stack_id) is None
                    && (offset, in_exec) == adjusted(self.range(), addr),
                None => !(event.event_type == TRACE_EXECUTION_START && event.stack_id >= 0 && top_frame_addr is Some
                    && cached_symbol(self.cache(), event.stack_id) is None),
            },
    {
        if event.event_type != TRACE_EXECUTION_START || event.stack_id < 0 {
            return None;
        }
        let addr = match top_frame_addr {
            Some(a) => a,
            None => {
                return None;
            },
        };
        match self.cached_index(event.stack_id) {
            Some(_) => None,
            None => {
                let (offset, in_exec) = adjust_address(self.memory_range, addr);
                Some((addr, offset, in_exec))
            },
        }
    }

    fn cached_index(&self, stack_id: i64) -> (r: Option<usize>)
        ensures
            match r {
                Some(k) => k < self.symbol_cache@.len() && self.symbol_cache@[k as int].0 == stack_id
                    && cached_symbol(self.cache(), stack_id) == Some(self.symbol_cache@[k as int].1),
                None => cached_symbol(self.cache(), stack_id) is None,
            },
    {
        let mut k: usize = self.symbol_cache.len();
        while k > 0
            invariant
                k <= self.symbol_cache.len(),
                forall|j: int| k <= j < self.symbol_cache@.len() ==> (#[trigger] self.symbol_cache@[j]).0 != stack_id,
            decreases k,
        {
            if self.symbol_cache[k - 1].0 == stack_id {
                proof {
                    let c = self.symbol_cache@;
                    lemma_cached_symbol_suffix(c, stack_id, k as int);
                    assert(c.subrange(0, k as int).last() == c[k - 1]);
                }
                return Some(k - 1);
            }
            k -= 1;
        }
        proof {
            let c = self.symbol_cache@;
            lemma_cached_symbol_suffix(c, stack_id, 0);
            assert(c.subrange(0, 0).len() == 0);
        }
        None
    }

    /// Records an execution event. A begin event is named after the symbol
    /// of its stack (cached per stack id; `resolved` is the symbol found for
    /// an uncached one), `execution` when no stack was captured, and
    /// `trace_<id>` when the stack has no top frame; an end event is named
    /// `execution`. Other events are ignored. Timestamps count from the
    /// first event.
    pub fn add_event(&mut self, event: &TaskEvent, top_frame_addr: Option<u64>, resolved: Option<Symbol>)
        ensures
            final(self).range() == old(self).range(),
            final(self).start() == Some(match old(self).start() {
                Some(s) => s,
                None => event.timestamp_ns,
            }),
            event.event_type != TRACE_EXECUTION_START && event.event_type != TRACE_EXECUTION_END ==> final(self).events() == old(self).events(),
            event.event_type == TRACE_EXECUTION_START && event.stack_id >= 0 && top_frame_addr is Some ==> (cached_symbol(
                final(self).cache(),
                event.stack_id,
            ) matches Some(c) && named_after(final(self).events().last(), c) && forall|x: i64|
                x != event.stack_id ==> #[trigger] cached_symbol(final(self).cache(), x) == cached_symbol(old(self).cache(), x)),
            !(event.event_type == TRACE_EXECUTION_START && event.stack_id >= 0 && top_frame_addr is Some) ==> final(self).cache()
                == old(self).cache(),
            event.event_type == TRACE_EXECUTION_START || event.event_type == TRACE_EXECUTION_END ==> ({
                let e = final(self).events().last();
                &&& final(self).events().len() == old(self).events().len() + 1
                &&& final(self).events().drop_last() == old(self).events()
                &&& e.pid == event.pid && e.tid == event.tid
                &&& e.ts_ns == relative_ts(event.timestamp_ns, final(self).start()->0)
                &&& e.args.worker_id == event.worker_id && e.args.cpu_id == event.cpu_id
                &&& e.args.detection_method == if event.detection_method != 0 { Some(event.detection_method) } else { None }
                &&& if event.event_type == TRACE_EXECUTION_START {
                    &&& e.ph == Phase::Begin
                    &&& e.args.task_id == if event.task_id != 0 { Some(event.task_id) } else { None }
                    &&& event.stack_id < 0 ==> e.name@ == "execution"@ && e.args.file is None && e.args.line is None
                    &&& event.stack_id >= 0 && top_frame_addr is None ==> e.name@ == "trace_"@ + dec_string(event.stack_id as nat)
                        && e.args.file is None && e.args.line is None
                    &&& event.stack_id >= 0 && top_frame_addr is Some ==> match cached_symbol(old(self).cache(), event.stack_id) {
                        Some(c) => named_after(e, c),
                        None => match resolved {
                            Some(s) => named_after(e, s),
                            None => e.name@ == "0x"@ + hex_string(top_frame_addr->0 as nat) && e.args.file is None && e.args.line is None,
                        },
                    }
                } else {
                    &&& e.ph == Phase::End
                    &&& e.name@ == "execution"@
                    &&& e.args.task_id is None && e.args.file is None && e.args.line is None
                }
            }),
    {
        if self.start_timestamp_ns.is_none() {
            self.start_timestamp_ns = Some(event.timestamp_ns);
        }
        let start = match self.start_timestamp_ns {
            Some(s) => s,
            None => event.timestamp_ns,
        };
        let ts = if event.timestamp_ns >= start { event.timestamp_ns - start } else { 0 };
        let detection = if event.detection_method != 0 { Some(event.detection_method) } else { None };
        if event.event_type == TRACE_EXECUTION_START {
            let symbol: Symbol = if event.stack_id < 0 {
                Symbol { function: "execution".to_string(), file: None, line: None }
            } else {
                match top_frame_addr {
                    Some(addr) => match self.cached_index(event.stack_id) {
                        Some(k) => clone_symbol(&self.symbol_cache[k].1),
                        None => {
                            let s = match resolved {
                                Some(s) => s,
                                None => {
                                    let mut f = String::new();
                                    push_str(&mut f, "0x");
                                    push_hex(&mut f, addr);
                                    Symbol { function: f, file: None, line: None }
                                },
                            };
                            let copy = clone_symbol(&s);
                            let ghost old_cache = self.symbol_cache@;
                            self.symbol_cache.push((event.stack_id, copy));
                            proof {
                                let nc = self.symbol_cache@;
                                assert(nc.drop_last() =~= old_cache);
                                assert(nc.last() == (event.stack_id, copy));
                                assert forall|x: i64| x != event.stack_id implies #[trigger] cached_symbol(nc, x)
                                    == cached_symbol(old_cache, x) by {
                                    assert(nc.drop_last() =~= old_cache);
                                }
                            }
                            s
                        },
                    },
                    None => {
                        let mut f = String::new();
                        push_str(&mut f, "trace_");
                        push_dec(&mut f, event.stack_id as u64);
                        Symbol { function: f, file: None, line: None }
                    },
                }
            };
            let args = TraceArgs {
                worker_id: event.worker_id,
                cpu_id: event.cpu_id,
                task_id: if event.task_id != 0 { Some(event.task_id) } else { None },
                detection_method: detection,
                file: symbol.file,
                line: symbol.line,
            };
            self.events.push(ChromeTraceEvent { name: symbol.function, ph: Phase::Begin, ts_ns: ts, pid: event.pid, tid: event.tid, args });
        } else if event.event_type == TRACE_EXECUTION_END {
            let args = TraceArgs {
                worker_id: event.worker_id,
                cpu_id: event.cpu_id,
                task_id: None,
                detection_method: detection,
                file: None,
                line: None,
            };
            self.events.push(ChromeTraceEvent { name: "execution".to_string(), ph: Phase::End, ts_ns: ts, pid: event.pid, tid: event.tid, args });
        }
    }

    /// Number of events recorded.
    pub fn event_count(&self) -> (r: usize)
        ensures
            r == self.events().len(),
    {
        self.events.len()
    }

    /// The events recorded.
    pub fn trace_events(&self) -> (r: &Vec<ChromeTraceEvent>)
        ensures
            r@ == self.events(),
    {
        &self.events
    }

    /// The worker thread of each (pid, tid) seen, for the thread-name
    /// records: one entry per thread, with the worker id of its latest
    /// event.
    pub fn thread_names(&self) -> (r: Vec<(u32, u32, u32)>)
        ensures
            distinct_threads(r@),
            forall|k: int| 0 <= k < r@.len() ==> entry_ok(self.events(), self.events().len() as int, #[trigger] r@[k]),
            forall|i: int| 0 <= i < self.events().len() ==> thread_listed(r@, #[trigger] self.events()[i].pid, self.events()[i].tid),
    {
        let ghost es = self.events@;
        let mut out: Vec<(u32, u32, u32)> = Vec::new();
        let mut i: usize = 0;
        while i < self.events.len()
            invariant
                i <= self.events.len(),
                es == self.events@,
                distinct_threads(out@),
                forall|k: int| 0 <= k < out@.len() ==> entry_ok(es, i as int, #[trigger] out@[k]),
                forall|x: int| 0 <= x < i ==> thread_listed(out@, #[trigger] es[x].pid, es[x].tid),
            decreases self.events.len() - i,
        {
            let e = &self.events[i];
            let mut k: usize = 0;
            while k < out.len() && (out[k].0 != e.pid || out[k].1 != e.tid)
                invariant
                    k <= out.len(),
                    forall|j: int| 0 <= j < k ==> !(out@[j].0 == e.pid && out@[j].1 == e.tid),
                decreases out.len() - k,
            {
                k += 1;
            }
            let ghost old_out = out@;
            let entry = (e.pid, e.tid, e.args.worker_id);
            if k < out.len() {
                out.set(k, entry);
            } else {
                out.push(entry);
            }
            proof {
                lemma_thread_step(es, i as int, old_out, out@, k as int);
            }
            i += 1;
        }
        out
    }
}

/// The key of an event's thread record.
pub open spec fn ev_key(e: ChromeTraceEvent) -> (u32, u32, u32) {
    (e.pid, e.tid, e.args.worker_id)
}

/// No event of the same thread follows event `x` among the first `n`.
pub open spec fn latest(es: Seq<ChromeTraceEvent>, n: int, x: int) -> bool {
    forall|j: int| x < j < n ==> !(#[trigger] es[j].pid == es[x].pid && es[j].tid == es[x].tid)
}

/// `t` is the record of the latest event of its thread among the first `n`.
pub open spec fn entry_ok(es: Seq<ChromeTraceEvent>, n: int, t: (u32, u32, u32)) -> bool {
    exists|x: int| 0 <= x < n && #[trigger] ev_key(es[x]) == t && latest(es, n, x)
}

/// Some record is for thread (`pid`, `tid`).
pub open spec fn thread_listed(out: Seq<(u32, u32, u32)>, pid: u32, tid: u32) -> bool {
    exists|k: int| 0 <= k < out.len() && #[trigger] out[k].0 == pid && out[k].1 == tid
}

/// One record per thread.
pub open spec fn distinct_threads(out: Seq<(u32, u32, u32)>) -> bool {
    forall|a: int, b: int| 0 <= a < b < out.len() ==> !(#[trigger] out[a].0 == #[trigger] out[b].0 && out[a].1 == out[b].1)
}

proof fn lemma_thread_step(es: Seq<ChromeTraceEvent>, i: int, old_out: Seq<(u32, u32, u32)>, out: Seq<(u32, u32, u32)>, k: int)
    requires
        0 <= i < es.len(),
        distinct_threads(old_out),
        forall|q: int| 0 <= q < old_out.len() ==> entry_ok(es, i, #[trigger] old_out[q]),
        forall|x: int| 0 <= x < i ==> thread_listed(old_out, #[trigger] es[x].pid, es[x].tid),
        0 <= k <= old_out.len(),
        forall|j: int| 0 <= j < k ==> !(old_out[j].0 == es[i].pid && old_out[j].1 == es[i].tid),
        k < old_out.len() ==> old_out[k].0 == es[i].pid && old_out[k].1 == es[i].tid && out == old_out.update(k, ev_key(es[i])),
        k == old_out.len() ==> out == old_out.push(ev_key(es[i])),
    ensures
        distinct_threads(out),
        forall|q: int| 0 <= q < out.len() ==> entry_ok(es, i + 1, #[trigger] out[q]),
        forall|x: int| 0 <= x < i + 1 ==> thread_listed(out, #[trigger] es[x].pid, es[x].tid),
{
    let e = es[i];
    assert(out.len() == if k < old_out.len() { old_out.len() } else { old_out.len() + 1 });
    assert(out[k] == ev_key(e));
    assert forall|q: int| 0 <= q < out.len() && q != k implies out[q] == old_out[q] by {}
    assert forall|q: int| 0 <= q < out.len() && q != k implies !(out[q].0 == e.pid && out[q].1 == e.tid) by {
        if q < k {
        } else {
            assert(q < old_out.len());
            assert(!(old_out[k].0 == old_out[q].0 && old_out[k].1 == old_out[q].1) || k >= old_out.len());
        }
    }
    assert forall|a: int, b: int| 0 <= a < b < out.len() implies !(#[trigger] out[a].0 == #[trigger] out[b].0 && out[a].1 == out[b].1) by {
        if a != k && b != k {
            assert(out[a] == old_out[a] && out[b] == old_out[b]);
        }
    }
    assert forall|q: int| 0 <= q < out.len() implies entry_ok(es, i + 1, #[trigger] out[q]) by {
        if q == k {
            assert(ev_key(es[i]) == out[q]);
            assert(latest(es, i + 1, i));
        } else {
            assert(entry_ok(es, i, old_out[q]));
            let x = choose|x: int| 0 <= x < i && #[trigger] ev_key(es[x]) == old_out[q] && latest(es, i, x);
            assert(!(es[i].pid == es[x].pid && es[i].tid == es[x].tid));
            assert(latest(es, i + 1, x));
            assert(ev_key(es[x]) == out[q]);
        }
    }
    assert forall|x: int| 0 <= x < i + 1 implies thread_listed(out, #[trigger] es[x].pid, es[x].tid) by {
        if x == i {
            assert(out[k].0 == es[x].pid && out[k].1 == es[x].tid);
        } else {
            assert(thread_listed(old_out, es[x].pid, es[x].tid));
            let q = choose|q: int| 0 <= q < old_out.len() && #[trigger] old_out[q].0 == es[x].pid && old_out[q].1 == es[x].tid;
            if q == k {
                assert(out[k].0 == es[x].pid && out[k].1 == es[x].tid);
            } else {
                assert(out[q] == old_out[q]);
            }
        }
    }
}

/// The name of a worker thread in the exported trace: `Worker <id>`.
pub fn worker_thread_name(worker_id: u32) -> (r: String)
    ensures
        r@ == "Worker "@ + dec_string(worker_id as nat),
{
    let mut s = String::new();
    push_str(&mut s, "Worker ");
    push_dec(&mut s, worker_id as u64);
    s
}

} // verus!
