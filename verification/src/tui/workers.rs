//! Per-worker load: how many samples each worker produced and how many of
//! them were in a function (rather than scheduler time), the busiest worker,
//! and whether the status panel warns.
use crate::analysis::hotspot_analyzer::is_sample;
use crate::trace_data::{TraceData, TraceEvent};
use crate::text::str_eq;
use vstd::prelude::*;

verus! {

/// Load of one worker.
#[derive(Debug, Clone, Copy, PartialEq, Eq, Structural)]
pub struct WorkerStats {
    /// Worker id.
    pub worker_id: u32,
    /// Thread id of the worker's first sample.
    pub tid: u32,
    /// Samples of this worker.
    pub total_samples: usize,
    /// Of those, samples in a function.
    pub samples_with_functions: usize,
}

/// The per-worker load of a snapshot.
pub struct WorkersPanel {
    stats: Vec<WorkerStats>,
}

/// What the status panel shows.
#[derive(Debug, Clone, Copy, PartialEq, Eq, Structural)]
pub struct StatusSummary {
    /// Whether the panel warns.
    pub has_warnings: bool,
    /// The worker with the highest share of samples in functions.
    pub busiest_worker: Option<WorkerStats>,
    /// Number of samples.
    pub total_events: usize,
    /// Number of workers seen.
    pub worker_count: usize,
    /// Whether too few frames had debug information.
    pub low_debug_coverage: bool,
}

// =============================================================================
// SPECIFICATION
// =============================================================================

/// Samples of worker `w`.
pub open spec fn worker_total(es: Seq<TraceEvent>, w: u32) -> nat
    decreases es.len(),
{
    if es.len() == 0 {
        0
    } else {
        worker_total(es.drop_last(), w) + if es.last().worker_id == w {
            1nat
        } else {
            0nat
        }
    }
}

/// Samples of worker `w` that are in a function.
pub open spec fn worker_busy(es: Seq<TraceEvent>, w: u32) -> nat
    decreases es.len(),
{
    if es.len() == 0 {
        0
    } else {
        worker_busy(es.drop_last(), w) + if es.last().worker_id == w && is_sample(es.last()) {
            1nat
        } else {
            0nat
        }
    }
}

/// Thread id of the first sample of worker `w`.
pub open spec fn worker_tid(es: Seq<TraceEvent>, w: u32) -> u32
    decreases es.len(),
{
    if es.len() == 0 {
        0
    } else if worker_total(es.drop_last(), w) > 0 {
        worker_tid(es.drop_last(), w)
    } else {
        es.last().tid
    }
}

/// `s` is the load of worker `s.worker_id` in `es`.
pub open spec fn stats_of(es: Seq<TraceEvent>, s: WorkerStats) -> bool {
    &&& worker_total(es, s.worker_id) > 0
    &&& s.total_samples == worker_total(es, s.worker_id)
    &&& s.samples_with_functions == worker_busy(es, s.worker_id)
    &&& s.tid == worker_tid(es, s.worker_id)
}

/// `ss` lists each worker of `es` once, with its load.
pub open spec fn all_stats(es: Seq<TraceEvent>, ss: Seq<WorkerStats>) -> bool {
    &&& forall|a: int, b: int| 0 <= a < b < ss.len() ==> #[trigger] ss[a].worker_id != #[trigger] ss[b].worker_id
    &&& forall|a: int| 0 <= a < ss.len() ==> stats_of(es, #[trigger] ss[a])
    &&& forall|w: u32| #[trigger] worker_total(es, w) > 0 ==> has_stats(ss, w)
}

/// `ss` has an entry for worker `w`.
pub open spec fn has_stats(ss: Seq<WorkerStats>, w: u32) -> bool {
    exists|a: int| 0 <= a < ss.len() && #[trigger] ss[a].worker_id == w
}

/// `a` has a smaller share of busy samples than `b`.
pub open spec fn strictly_below(a: WorkerStats, b: WorkerStats) -> bool {
    a.samples_with_functions * b.total_samples < b.samples_with_functions * a.total_samples
}

/// `b` occurs in `ss` after only workers with a smaller share: on a tie,
/// the first of the busiest workers.
pub open spec fn first_busiest(ss: Seq<WorkerStats>, b: WorkerStats) -> bool {
    exists|k: int| 0 <= k < ss.len() && ss[k] == b && forall|a: int|
        0 <= a < k && (#[trigger] ss[a]).total_samples > 0 ==> strictly_below(ss[a], b)
}

/// `a` has at least the share of busy samples of `b` (both with samples).
pub open spec fn share_at_least(a: WorkerStats, b: WorkerStats) -> bool {
    a.samples_with_functions * b.total_samples >= b.samples_with_functions * a.total_samples
}

/// More than half of the worker's samples are in functions.
pub open spec fn over_half(s: WorkerStats) -> bool {
    2 * s.samples_with_functions > s.total_samples
}

// =============================================================================
// IMPLEMENTATION
// =============================================================================

proof fn lemma_busy_le_total(es: Seq<TraceEvent>, w: u32)
    ensures
        worker_busy(es, w) <= worker_total(es, w),
        worker_total(es, w) <= es.len(),
    decreases es.len(),
{
    if es.len() > 0 {
        lemma_busy_le_total(es.drop_last(), w);
    }
}

/// The load of each worker of the samples, in order of first appearance.
pub fn worker_stats(events: &Vec<TraceEvent>) -> (r: Vec<WorkerStats>)
    ensures
        all_stats(events@, r@),
{
    let ghost es = events@;
    let mut out: Vec<WorkerStats> = Vec::new();
    proof {
        reveal_strlit("execution");
    }
    let mut i: usize = 0;
    while i < events.len()
        invariant
            i <= events.len(),
            es == events@,
            all_stats(es.subrange(0, i as int), out@),
        decreases events.len() - i,
    {
        let ghost pre = es.subrange(0, i as int);
        let ghost next = es.subrange(0, i + 1);
        assert(next.drop_last() =~= pre);
        let e = &events[i];
        assert(next.last() == *e);
        let busy = !str_eq(e.name.as_str(), "execution");
        let w = e.worker_id;
        let mut k: usize = 0;
        while k < out.len() && out[k].worker_id != w
            invariant
                k <= out.len(),
                forall|j: int| 0 <= j < k ==> out@[j].worker_id != w,
            decreases out.len() - k,
        {
            k += 1;
        }
        let ghost old_out = out@;
        proof {
            lemma_busy_le_total(pre, w);
            lemma_busy_le_total(next, w);
        }
        if k < out.len() {
            let s = out[k];
            assert(stats_of(pre, s));
            let ns = WorkerStats {
                worker_id: s.worker_id,
                tid: s.tid,
                total_samples: s.total_samples + 1,
                samples_with_functions: if busy { s.samples_with_functions + 1 } else { s.samples_with_functions },
            };
            out.set(k, ns);
        } else {
            proof {
                if worker_total(pre, w) > 0 {
                    assert(has_stats(old_out, w));
                    let a = choose|a: int| 0 <= a < old_out.len() && #[trigger] old_out[a].worker_id == w;
                    assert(false);
                }
            }
            out.push(WorkerStats { worker_id: w, tid: e.tid, total_samples: 1, samples_with_functions: if busy { 1 } else { 0 } });
        }
        proof {
            let no = out@;
            assert forall|a: int| 0 <= a < no.len() implies stats_of(next, #[trigger] no[a]) by {
                if a != k {
                    assert(no[a] == old_out[a]);
                    assert(stats_of(pre, old_out[a]));
                    assert(old_out[a].worker_id != w);
                }
            }
            assert forall|a: int, b: int| 0 <= a < b < no.len() implies #[trigger] no[a].worker_id != #[trigger] no[b].worker_id by {
                if a != k && b != k {
                    assert(no[a] == old_out[a] && no[b] == old_out[b]);
                } else if a == k {
                    if b < old_out.len() {
                        assert(no[b] == old_out[b]);
                    }
                } else {
                    assert(no[a] == old_out[a]);
                }
            }
            assert forall|x: u32| #[trigger] worker_total(next, x) > 0 implies has_stats(no, x) by {
                if x == w {
                    assert(no[k as int].worker_id == x);
                } else {
                    assert(worker_total(pre, x) > 0);
                    let a = choose|a: int| 0 <= a < old_out.len() && #[trigger] old_out[a].worker_id == x;
                    assert(no[a].worker_id == x);
                }
            }
        }
        i += 1;
    }
    assert(es.subrange(0, events.len() as int) =~= es);
    out
}

impl WorkersPanel {
    /// The load of each worker, in order of first appearance.
    pub closed spec fn stats(&self) -> Seq<WorkerStats> {
        self.stats@
    }

    /// The per-worker load of a snapshot.
    pub fn new(data: &TraceData) -> (r: Self)
        ensures
            all_stats(data.events@, r.stats()),
    {
        WorkersPanel { stats: worker_stats(&data.events) }
    }

    /// The load of worker `worker_id`, if it has samples.
    pub fn stats_for(&self, worker_id: u32) -> (r: Option<WorkerStats>)
        ensures
            match r {
                Some(s) => s.worker_id == worker_id && self.stats().contains(s),
                None => !has_stats(self.stats(), worker_id),
            },
    {
        let mut k: usize = 0;
        while k < self.stats.len()
            invariant
                k <= self.stats.len(),
                forall|j: int| 0 <= j < k ==> self.stats@[j].worker_id != worker_id,
            decreases self.stats.len() - k,
        {
            if self.stats[k].worker_id == worker_id {
                assert(self.stats@[k as int] == self.stats[k as int]);
                return Some(self.stats[k]);
            }
            k += 1;
        }
        None
    }
}

/// The worker with the highest share of samples in functions (the first
/// such worker in the list on a tie).
pub fn busiest_worker(stats: &Vec<WorkerStats>) -> (r: Option<WorkerStats>)
    ensures
        match r {
            Some(b) => b.total_samples > 0 && stats@.contains(b) && (forall|a: int|
                0 <= a < stats@.len() && (#[trigger] stats@[a]).total_samples > 0 ==> share_at_least(b, stats@[a]))
                && first_busiest(stats@, b),
            None => forall|a: int| 0 <= a < stats@.len() ==> (#[trigger] stats@[a]).total_samples == 0,
        },
{
    let mut best: Option<WorkerStats> = None;
    let ghost mut best_idx: int = 0;
    let mut i: usize = 0;
    while i < stats.len()
        invariant
            i <= stats.len(),
            match best {
                Some(b) => b.total_samples > 0 && stats@.contains(b) && (forall|a: int|
                    0 <= a < i && (#[trigger] stats@[a]).total_samples > 0 ==> share_at_least(b, stats@[a]))
                    && 0 <= best_idx < i && stats@[best_idx] == b && (forall|a: int|
                    0 <= a < best_idx && (#[trigger] stats@[a]).total_samples > 0 ==> strictly_below(stats@[a], b)),
                None => forall|a: int| 0 <= a < i ==> (#[trigger] stats@[a]).total_samples == 0,
            },
        decreases stats.len() - i,
    {
        let s = stats[i];
        if s.total_samples > 0 {
            let better = match best {
                None => true,
                Some(b) => mul_wide(s.samples_with_functions, b.total_samples) > mul_wide(b.samples_with_functions, s.total_samples),
            };
            if better {
                proof {
                    assert(stats@[i as int] == s);
                    match best {
                        Some(b) => {
                            assert forall|a: int| 0 <= a < i && (#[trigger] stats@[a]).total_samples > 0 implies share_at_least(s, stats@[a])
                                && strictly_below(stats@[a], s) by {
                                lemma_share_trans(s, b, stats@[a]);
                                lemma_share_strict(s, b, stats@[a]);
                            }
                        },
                        None => {},
                    }
                    best_idx = i as int;
                }
                best = Some(s);
            } else {
                proof {
                    assert(stats@[i as int] == s);
                }
            }
        }
        i += 1;
    }
    best
}

/// The product of two sizes, without overflow.
fn mul_wide(a: usize, b: usize) -> (r: u128)
    ensures
        r == a * b,
{
    let x = a as u128;
    let y = b as u128;
    assert(x * y <= 0xffff_ffff_ffff_ffffu128 * 0xffff_ffff_ffff_ffffu128) by (nonlinear_arith)
        requires
            x <= 0xffff_ffff_ffff_ffffu128,
            y <= 0xffff_ffff_ffff_ffffu128,
    ;
    x * y
}

proof fn lemma_share_strict(s: WorkerStats, b: WorkerStats, c: WorkerStats)
    requires
        s.total_samples > 0,
        b.total_samples > 0,
        c.total_samples > 0,
        s.samples_with_functions * b.total_samples > b.samples_with_functions * s.total_samples,
        share_at_least(b, c),
    ensures
        strictly_below(c, s),
{
    let (sw, st, bw, bt, cw, ct) = (s.samples_with_functions as int, s.total_samples as int, b.samples_with_functions as int, b.total_samples as int, c.samples_with_functions as int, c.total_samples as int);
    assert(cw * st < sw * ct) by (nonlinear_arith)
        requires
            st > 0,
            bt > 0,
            ct > 0,
            sw >= 0,
            bw >= 0,
            cw >= 0,
            sw * bt > bw * st,
            bw * ct >= cw * bt,
    {
        assert(sw * bt * ct > bw * st * ct);
        assert(bw * ct * st >= cw * bt * st);
    }
}

proof fn lemma_share_trans(s: WorkerStats, b: WorkerStats, c: WorkerStats)
    requires
        s.total_samples > 0,
        b.total_samples > 0,
        c.total_samples > 0,
        s.samples_with_functions * b.total_samples > b.samples_with_functions * s.total_samples,
        share_at_least(b, c),
    ensures
        share_at_least(s, c),
{
    let (sw, st, bw, bt, cw, ct) = (s.samples_with_functions as int, s.total_samples as int, b.samples_with_functions as int, b.total_samples as int, c.samples_with_functions as int, c.total_samples as int);
    assert(sw * ct >= cw * st) by (nonlinear_arith)
        requires
            st > 0,
            bt > 0,
            ct > 0,
            sw >= 0,
            bw >= 0,
            cw >= 0,
            sw * bt > bw * st,
            bw * ct >= cw * bt;
}

/// What the status panel shows for a snapshot, given whether the frames had
/// too little debug information: the busiest worker, and a warning when it
/// is in functions more than half of the time or debug information is low.
pub fn status_summary(data: &TraceData, low_debug_coverage: bool) -> (r: StatusSummary)
    ensures
        r.total_events == data.events@.len(),
        r.worker_count == data.workers@.len(),
        r.low_debug_coverage == low_debug_coverage,
        match r.busiest_worker {
            Some(b) => stats_of(data.events@, b) && forall|w: u32|
                #[trigger] worker_total(data.events@, w) > 0 ==> exists|s: WorkerStats| stats_of(data.events@, s) && s.worker_id == w && share_at_least(b, s),
            None => data.events@.len() == 0,
        },
        r.has_warnings == ((match r.busiest_worker {
            Some(b) => over_half(b),
            None => false,
        }) || low_debug_coverage),
{
    let stats = worker_stats(&data.events);
    proof {
        assert forall|a: int| 0 <= a < stats@.len() implies (#[trigger] stats@[a]).samples_with_functions <= stats@[a].total_samples by {
            assert(stats_of(data.events@, stats@[a]));
            lemma_busy_le_total(data.events@, stats@[a].worker_id);
        }
    }
    let busiest = busiest_worker(&stats);
    proof {
        match busiest {
            Some(b) => {
                let k = choose|k: int| 0 <= k < stats@.len() && stats@[k] == b;
                assert(stats_of(data.events@, stats@[k]));
                assert forall|w: u32| #[trigger] worker_total(data.events@, w) > 0 implies exists|s: WorkerStats| stats_of(data.events@, s) && s.worker_id == w && share_at_least(b, s) by {
                    assert(has_stats(stats@, w));
                    let a = choose|a: int| 0 <= a < stats@.len() && #[trigger] stats@[a].worker_id == w;
                    assert(stats_of(data.events@, stats@[a]));
                }
            },
            None => {
                if data.events@.len() > 0 {
                    let w = data.events@[0].worker_id;
                    lemma_first_worker_counted(data.events@);
                    assert(has_stats(stats@, w));
                    let a = choose|a: int| 0 <= a < stats@.len() && #[trigger] stats@[a].worker_id == w;
                    assert(stats_of(data.events@, stats@[a]));
                }
            },
        }
    }
    let warn = match busiest {
        Some(b) => b.samples_with_functions > b.total_samples - b.samples_with_functions,
        None => false,
    };
    StatusSummary {
        has_warnings: warn || low_debug_coverage,
        busiest_worker: busiest,
        total_events: data.events.len(),
        worker_count: data.workers.len(),
        low_debug_coverage,
    }
}

proof fn lemma_first_worker_counted(es: Seq<TraceEvent>)
    requires
        es.len() > 0,
    ensures
        worker_total(es, es[0].worker_id) > 0,
    decreases es.len(),
{
    if es.len() > 1 {
        assert(es.drop_last()[0] == es[0]);
        lemma_first_worker_counted(es.drop_last());
    }
}

} // verus!
