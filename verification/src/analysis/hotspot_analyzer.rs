//! Hotspots: samples aggregated by function name.
//!
//! `HotspotStats` aggregates samples as they stream in; `analyze_hotspots`
//! does the same for a whole snapshot at once. Both describe, for every
//! function that was sampled, how often it was sampled overall and on each
//! worker, where it lies in the source (from its first sample) and up to
//! five of its distinct call stacks. Samples named `execution` stand for
//! scheduler time and are not counted.
use crate::trace_data::{StackFrame, TraceData, TraceEvent};
use crate::text::str_eq;
use std::sync::Arc;
use vstd::prelude::*;

verus! {

/// Maximum number of distinct call stacks kept per hotspot.
pub const MAX_CALL_STACKS_PER_HOTSPOT: usize = 5;

/// A function hotspot with aggregated statistics.
pub struct FunctionHotspot {
    /// Fully qualified function name.
    pub name: String,
    /// Number of samples of this function.
    pub count: usize,
    /// Samples per worker: (worker id, count), each worker once.
    pub workers: Vec<(u32, usize)>,
    /// Source file, from the first sample.
    pub file: Option<String>,
    /// Source line, from the first sample.
    pub line: Option<u32>,
    /// Distinct call stacks leading to this function (at most five).
    pub call_stacks: Vec<Arc<Vec<StackFrame>>>,
}

impl FunctionHotspot {
    /// `other` holds the same data as `self`.
    pub open spec fn same_as(&self, other: &FunctionHotspot) -> bool {
        &&& self.name@ == other.name@
        &&& self.count == other.count
        &&& self.workers@ == other.workers@
        &&& opt_view(self.file) == opt_view(other.file)
        &&& self.line == other.line
        &&& self.call_stacks@ == other.call_stacks@
    }
}

impl Clone for FunctionHotspot {
    fn clone(&self) -> (r: FunctionHotspot)
        ensures
            r.same_as(self),
    {
        let mut workers: Vec<(u32, usize)> = Vec::new();
        let mut i: usize = 0;
        while i < self.workers.len()
            invariant
                i <= self.workers.len(),
                workers@ == self.workers@.subrange(0, i as int),
            decreases self.workers.len() - i,
        {
            workers.push(self.workers[i]);
            i += 1;
            assert(workers@ =~= self.workers@.subrange(0, i as int));
        }
        let mut stacks: Vec<Arc<Vec<StackFrame>>> = Vec::new();
        let mut j: usize = 0;
        while j < self.call_stacks.len()
            invariant
                j <= self.call_stacks.len(),
                stacks@ == self.call_stacks@.subrange(0, j as int),
            decreases self.call_stacks.len() - j,
        {
            stacks.push(Arc::clone(&self.call_stacks[j]));
            j += 1;
            assert(stacks@ =~= self.call_stacks@.subrange(0, j as int));
        }
        assert(workers@ =~= self.workers@);
        assert(stacks@ =~= self.call_stacks@);
        FunctionHotspot {
            name: self.name.clone(),
            count: self.count,
            workers,
            file: opt_string_clone(&self.file),
            line: self.line,
            call_stacks: stacks,
        }
    }
}

/// Statistics of one function.
struct FunctionStats {
    name: String,
    count: u64,
    workers: Vec<(u32, u64)>,
    file: Option<String>,
    line: Option<u32>,
    /// Every distinct stack id seen, in order of first appearance.
    seen_stack_ids: Vec<i64>,
    /// The first few distinct stacks: (id, stack, samples with it).
    call_stacks: Vec<(i64, Arc<Vec<StackFrame>>, u64)>,
}

/// Incremental hotspot statistics.
pub struct HotspotStats {
    functions: Vec<FunctionStats>,
    total_samples: u64,
    recorded: Ghost<Seq<TraceEvent>>,
}

// =============================================================================
// SPECIFICATION
// =============================================================================

/// Whether a sample counts toward the hotspots.
pub open spec fn is_sample(e: TraceEvent) -> bool {
    e.name@ != "execution"@
}

/// A counted sample of function `n`.
pub open spec fn sample_of(e: TraceEvent, n: Seq<char>) -> bool {
    is_sample(e) && e.name@ == n
}

/// Number of counted samples.
pub open spec fn sample_total(es: Seq<TraceEvent>) -> nat
    decreases es.len(),
{
    if es.len() == 0 {
        0
    } else {
        sample_total(es.drop_last()) + if is_sample(es.last()) {
            1nat
        } else {
            0nat
        }
    }
}

/// Number of samples of function `n`.
pub open spec fn name_count(es: Seq<TraceEvent>, n: Seq<char>) -> nat
    decreases es.len(),
{
    if es.len() == 0 {
        0
    } else {
        name_count(es.drop_last(), n) + if sample_of(es.last(), n) {
            1nat
        } else {
            0nat
        }
    }
}

/// Number of samples of function `n` taken on worker `w`.
pub open spec fn worker_count(es: Seq<TraceEvent>, n: Seq<char>, w: u32) -> nat
    decreases es.len(),
{
    if es.len() == 0 {
        0
    } else {
        worker_count(es.drop_last(), n, w) + if sample_of(es.last(), n) && es.last().worker_id
            == w {
            1nat
        } else {
            0nat
        }
    }
}

/// The view of an optional string.
pub open spec fn opt_view(o: Option<String>) -> Option<Seq<char>> {
    match o {
        Some(s) => Some(s@),
        None => None,
    }
}

/// Source file and line of the first sample of `n`.
pub open spec fn location_of(es: Seq<TraceEvent>, n: Seq<char>) -> (Option<Seq<char>>, Option<u32>)
    decreases es.len(),
{
    if es.len() == 0 {
        (None, None)
    } else if name_count(es.drop_last(), n) > 0 {
        location_of(es.drop_last(), n)
    } else if sample_of(es.last(), n) {
        (opt_view(es.last().file), es.last().line)
    } else {
        (None, None)
    }
}

/// A sample of `n` that carries a call stack.
pub open spec fn stacked_sample_of(e: TraceEvent, n: Seq<char>) -> bool {
    sample_of(e, n) && e.call_stack is Some
}

/// The distinct stack ids of the samples of `n`, in order of first
/// appearance.
pub open spec fn stack_ids(es: Seq<TraceEvent>, n: Seq<char>) -> Seq<i64>
    decreases es.len(),
{
    if es.len() == 0 {
        seq![]
    } else {
        let prev = stack_ids(es.drop_last(), n);
        if stacked_sample_of(es.last(), n) && !prev.contains(es.last().stack_id) {
            prev.push(es.last().stack_id)
        } else {
            prev
        }
    }
}

/// Number of samples of `n` with stack `id`.
pub open spec fn stack_count(es: Seq<TraceEvent>, n: Seq<char>, id: i64) -> nat
    decreases es.len(),
{
    if es.len() == 0 {
        0
    } else {
        stack_count(es.drop_last(), n, id) + if stacked_sample_of(es.last(), n)
            && es.last().stack_id == id {
            1nat
        } else {
            0nat
        }
    }
}

/// The call stack of the first sample of `n` with stack `id`.
pub open spec fn stack_of(es: Seq<TraceEvent>, n: Seq<char>, id: i64) -> Option<
    Arc<Vec<StackFrame>>,
>
    decreases es.len(),
{
    if es.len() == 0 {
        None
    } else if stack_ids(es.drop_last(), n).contains(id) {
        stack_of(es.drop_last(), n, id)
    } else if stacked_sample_of(es.last(), n) && es.last().stack_id == id {
        es.last().call_stack
    } else {
        None
    }
}

/// The stacks kept for a hotspot: the first few distinct ones.
pub open spec fn kept_stacks(es: Seq<TraceEvent>, n: Seq<char>) -> Seq<i64> {
    let ids = stack_ids(es, n);
    if ids.len() > MAX_CALL_STACKS_PER_HOTSPOT {
        ids.subrange(0, MAX_CALL_STACKS_PER_HOTSPOT as int)
    } else {
        ids
    }
}

/// The names of the hotspots.
pub open spec fn hotspot_names(hs: Seq<FunctionHotspot>) -> Seq<Seq<char>> {
    Seq::new(hs.len(), |i: int| hs[i].name@)
}

/// `ws` lists each worker that sampled `n` once, with its sample count.
pub open spec fn workers_match(ws: Seq<(u32, usize)>, es: Seq<TraceEvent>, n: Seq<char>) -> bool {
    &&& forall|i: int, j: int| 0 <= i < j < ws.len() ==> #[trigger] ws[i].0 != #[trigger] ws[j].0
    &&& forall|j: int|
        0 <= j < ws.len() ==> #[trigger] ws[j].1 == worker_count(es, n, ws[j].0) && ws[j].1 > 0
    &&& forall|w: u32|
        #[trigger] worker_count(es, n, w) > 0 ==> exists|j: int| 0 <= j < ws.len() && ws[j].0 == w
}

/// `h` describes function `h.name` in the samples `es`, with its call
/// stacks listed in the order `ids` (the kept stacks, in some order).
pub open spec fn hotspot_describes(h: FunctionHotspot, es: Seq<TraceEvent>, ids: Seq<i64>) -> bool {
    let n = h.name@;
    &&& name_count(es, n) > 0
    &&& h.count == name_count(es, n)
    &&& workers_match(h.workers@, es, n)
    &&& (opt_view(h.file), h.line) == location_of(es, n)
    &&& ids.len() == h.call_stacks@.len()
    &&& ids.to_multiset() == kept_stacks(es, n).to_multiset()
    &&& forall|j: int| 0 <= j < ids.len() ==> Some(#[trigger] h.call_stacks@[j]) == stack_of(es, n, ids[j])
}

/// `hs` is a hotspot list for `es`: one hotspot per sampled function, most
/// sampled first.
pub open spec fn hotspots_of(es: Seq<TraceEvent>, hs: Seq<FunctionHotspot>) -> bool {
    &&& forall|i: int, j: int| 0 <= i < j < hs.len() ==> #[trigger] hs[i].name@ != #[trigger] hs[j].name@
    &&& forall|i: int, j: int| 0 <= i < j < hs.len() ==> #[trigger] hs[i].count >= #[trigger] hs[j].count
    &&& forall|n: Seq<char>| #[trigger] name_count(es, n) > 0 ==> hotspot_names(hs).contains(n)
}

/// `ids` lists stacks from the most to the least frequent.
pub open spec fn by_frequency(es: Seq<TraceEvent>, n: Seq<char>, ids: Seq<i64>) -> bool {
    forall|a: int, b: int|
        0 <= a < b < ids.len() ==> stack_count(es, n, #[trigger] ids[a]) >= stack_count(
            es,
            n,
            #[trigger] ids[b],
        )
}

/// `h` describes its function's samples in `es`, with the kept call stacks
/// listed from the most to the least frequent.
pub open spec fn ranked_hotspot(h: FunctionHotspot, es: Seq<TraceEvent>) -> bool {
    exists|ids: Seq<i64>| #[trigger] hotspot_describes(h, es, ids) && by_frequency(es, h.name@, ids)
}

/// Sum of the counts of the hotspots.
pub open spec fn count_sum(hs: Seq<FunctionHotspot>) -> nat
    decreases hs.len(),
{
    if hs.len() == 0 {
        0
    } else {
        count_sum(hs.drop_last()) + hs.last().count as nat
    }
}

// =============================================================================
// INTERNAL INVARIANTS
// =============================================================================

spec fn stats_workers_match(ws: Seq<(u32, u64)>, es: Seq<TraceEvent>, n: Seq<char>) -> bool {
    &&& forall|i: int, j: int| 0 <= i < j < ws.len() ==> #[trigger] ws[i].0 != #[trigger] ws[j].0
    &&& forall|j: int|
        0 <= j < ws.len() ==> #[trigger] ws[j].1 == worker_count(es, n, ws[j].0) && ws[j].1 > 0
    &&& forall|w: u32|
        #[trigger] worker_count(es, n, w) > 0 ==> exists|j: int| 0 <= j < ws.len() && ws[j].0 == w
}

spec fn stats_match(f: FunctionStats, es: Seq<TraceEvent>) -> bool {
    let n = f.name@;
    &&& name_count(es, n) > 0
    &&& f.count == name_count(es, n)
    &&& stats_workers_match(f.workers@, es, n)
    &&& (opt_view(f.file), f.line) == location_of(es, n)
    &&& f.seen_stack_ids@ == stack_ids(es, n)
    &&& f.call_stacks@.len() == kept_stacks(es, n).len()
    &&& forall|j: int|
        0 <= j < f.call_stacks@.len() ==> (#[trigger] f.call_stacks@[j]).0 == kept_stacks(es, n)[j]
            && Some(f.call_stacks@[j].1) == stack_of(es, n, f.call_stacks@[j].0)
            && f.call_stacks@[j].2 == stack_count(es, n, f.call_stacks@[j].0)
}

spec fn stats_ok(fs: Seq<FunctionStats>, es: Seq<TraceEvent>) -> bool {
    &&& forall|i: int, j: int| 0 <= i < j < fs.len() ==> #[trigger] fs[i].name@ != #[trigger] fs[j].name@
    &&& forall|k: int| 0 <= k < fs.len() ==> stats_match(#[trigger] fs[k], es)
    &&& forall|n: Seq<char>|
        #[trigger] name_count(es, n) > 0 ==> exists|k: int| 0 <= k < fs.len() && fs[k].name@ == n
}

// =============================================================================
// LEMMAS
// =============================================================================

proof fn lemma_counts_bounded(es: Seq<TraceEvent>, n: Seq<char>, w: u32, id: i64)
    ensures
        name_count(es, n) <= sample_total(es),
        sample_total(es) <= es.len(),
        worker_count(es, n, w) <= name_count(es, n),
        stack_count(es, n, id) <= name_count(es, n),
    decreases es.len(),
{
    if es.len() > 0 {
        lemma_counts_bounded(es.drop_last(), n, w, id);
    }
}

proof fn lemma_stack_ids_facts(es: Seq<TraceEvent>, n: Seq<char>)
    ensures
        forall|i: int, j: int| 0 <= i < j < stack_ids(es, n).len() ==> stack_ids(es, n)[i] != stack_ids(es, n)[j],
        forall|j: int| 0 <= j < stack_ids(es, n).len() ==> stack_count(es, n, #[trigger] stack_ids(es, n)[j]) > 0,
        forall|id: i64| stack_count(es, n, id) == 0 ==> !#[trigger] stack_ids(es, n).contains(id),
    decreases es.len(),
{
    if es.len() > 0 {
        lemma_stack_ids_facts(es.drop_last(), n);
        let prev = stack_ids(es.drop_last(), n);
        let cur = stack_ids(es, n);
        assert forall|j: int| 0 <= j < cur.len() implies stack_count(es, n, #[trigger] cur[j]) > 0 by {
            if j < prev.len() {
                assert(cur[j] == prev[j]);
            }
        }
        assert forall|id: i64| stack_count(es, n, id) == 0 implies !#[trigger] cur.contains(id) by {
            if cur.contains(id) {
                let j = choose|j: int| 0 <= j < cur.len() && cur[j] == id;
                if j < prev.len() {
                    assert(prev[j] == id);
                    assert(prev.contains(id));
                }
            }
        }
    }
}

/// A sample that is not of `f`'s function leaves `f`'s statistics valid.
proof fn lemma_stats_unaffected(f: FunctionStats, es: Seq<TraceEvent>, e: TraceEvent)
    requires
        stats_match(f, es),
        !sample_of(e, f.name@),
    ensures
        stats_match(f, es.push(e)),
{
    let es2 = es.push(e);
    let n = f.name@;
    assert(es2.drop_last() =~= es);
    assert(stack_ids(es2, n) == stack_ids(es, n));
    assert forall|w: u32| worker_count(es2, n, w) == worker_count(es, n, w) by {}
    assert forall|id: i64| #![auto] stack_count(es2, n, id) == stack_count(es, n, id) && (stack_ids(
        es,
        n,
    ).contains(id) ==> stack_of(es2, n, id) == stack_of(es, n, id)) by {}
}

// =============================================================================
// IMPLEMENTATION
// =============================================================================

fn opt_string_clone(o: &Option<String>) -> (r: Option<String>)
    ensures
        r == *o,
{
    match o {
        Some(s) => Some(s.clone()),
        None => None,
    }
}

/// Statistics for the first sample of a function.
fn new_stats(e: &TraceEvent, Ghost(es): Ghost<Seq<TraceEvent>>) -> (r: FunctionStats)
    requires
        is_sample(*e),
        name_count(es, e.name@) == 0,
    ensures
        stats_match(r, es.push(*e)),
        r.name@ == e.name@,
{
    let ghost es2 = es.push(*e);
    let ghost n = e.name@;
    assert(es2.drop_last() =~= es);
    proof {
        lemma_counts_bounded(es, n, e.worker_id, e.stack_id);
        lemma_stack_ids_facts(es, n);
        assert forall|w: u32| #![auto] worker_count(es, n, w) == 0 by {
            lemma_counts_bounded(es, n, w, 0);
        }
        assert forall|id: i64| #![auto] stack_count(es, n, id) == 0 && !stack_ids(es, n).contains(id) by {
            lemma_counts_bounded(es, n, 0, id);
        }
        assert(stack_ids(es, n).len() == 0) by {
            if stack_ids(es, n).len() > 0 {
                assert(stack_ids(es, n).contains(stack_ids(es, n)[0]));
            }
        }
    }
    let mut workers: Vec<(u32, u64)> = Vec::new();
    workers.push((e.worker_id, 1));
    let mut seen: Vec<i64> = Vec::new();
    let mut stacks: Vec<(i64, Arc<Vec<StackFrame>>, u64)> = Vec::new();
    match &e.call_stack {
        Some(s) => {
            seen.push(e.stack_id);
            stacks.push((e.stack_id, Arc::clone(s), 1));
        },
        None => {},
    }
    let r = FunctionStats {
        name: e.name.clone(),
        count: 1,
        workers,
        file: opt_string_clone(&e.file),
        line: e.line,
        seen_stack_ids: seen,
        call_stacks: stacks,
    };
    proof {
        assert(stack_ids(es2, n) =~= r.seen_stack_ids@);
        assert forall|w: u32| #[trigger] worker_count(es2, n, w) > 0 implies exists|j: int|
            0 <= j < r.workers@.len() && r.workers@[j].0 == w by {
            lemma_counts_bounded(es, n, w, 0);
            assert(r.workers@[0].0 == w);
        }
    }
    r
}

/// Adds a sample of `f`'s function to `f`.
fn update_stats(f: &mut FunctionStats, e: &TraceEvent, Ghost(es): Ghost<Seq<TraceEvent>>)
    requires
        stats_match(*old(f), es),
        sample_of(*e, old(f).name@),
        sample_total(es) < u64::MAX,
    ensures
        stats_match(*final(f), es.push(*e)),
        final(f).name@ == old(f).name@,
{
    let ghost n = f.name@;
    let ghost es2 = es.push(*e);
    assert(es2.drop_last() =~= es);
    proof {
        lemma_counts_bounded(es, n, e.worker_id, e.stack_id);
        lemma_stack_ids_facts(es, n);
    }
    f.count = f.count + 1;
    // per-worker count
    let mut k: usize = 0;
    while k < f.workers.len() && f.workers[k].0 != e.worker_id
        invariant
            k <= f.workers.len(),
            forall|j: int| 0 <= j < k ==> f.workers@[j].0 != e.worker_id,
        decreases f.workers.len() - k,
    {
        k += 1;
    }
    let ghost old_ws = f.workers@;
    if k < f.workers.len() {
        proof {
            lemma_counts_bounded(es, n, e.worker_id, 0);
        }
        let (w, c) = f.workers[k];
        f.workers.set(k, (w, c + 1));
    } else {
        f.workers.push((e.worker_id, 1));
        proof {
            if worker_count(es, n, e.worker_id) > 0 {
                let j = choose|j: int| 0 <= j < old_ws.len() && old_ws[j].0 == e.worker_id;
                assert(false);
            }
        }
    }
    proof {
        let ws = f.workers@;
        assert forall|j: int| 0 <= j < ws.len() implies #[trigger] ws[j].1 == worker_count(
            es2,
            n,
            ws[j].0,
        ) && ws[j].1 > 0 by {
            if j < old_ws.len() && j != k {
                assert(ws[j] == old_ws[j]);
            }
        }
        assert forall|w: u32| #[trigger] worker_count(es2, n, w) > 0 implies exists|j: int|
            0 <= j < ws.len() && ws[j].0 == w by {
            if w == e.worker_id {
                assert(ws[k as int].0 == w);
            } else {
                assert(worker_count(es, n, w) > 0);
                let j = choose|j: int| 0 <= j < old_ws.len() && old_ws[j].0 == w;
                assert(ws[j].0 == w);
            }
        }
        assert forall|i: int, j: int| 0 <= i < j < ws.len() implies #[trigger] ws[i].0
            != #[trigger] ws[j].0 by {
            if j < old_ws.len() {
                if i != k && j != k {
                    assert(ws[i] == old_ws[i] && ws[j] == old_ws[j]);
                } else if i == k {
                    assert(ws[j] == old_ws[j]);
                } else {
                    assert(ws[i] == old_ws[i]);
                }
            } else {
                assert(ws[i] == old_ws[i]);
            }
        }
    }
    // call stacks
    let ghost old_seen = f.seen_stack_ids@;
    let ghost old_stacks = f.call_stacks@;
    match &e.call_stack {
        Some(s) => {
            let id = e.stack_id;
            let mut p: usize = 0;
            while p < f.seen_stack_ids.len() && f.seen_stack_ids[p] != id
                invariant
                    p <= f.seen_stack_ids.len(),
                    forall|j: int| 0 <= j < p ==> f.seen_stack_ids@[j] != id,
                decreases f.seen_stack_ids.len() - p,
            {
                p += 1;
            }
            if p == f.seen_stack_ids.len() {
                assert(!old_seen.contains(id));
                f.seen_stack_ids.push(id);
                if f.call_stacks.len() < MAX_CALL_STACKS_PER_HOTSPOT {
                    f.call_stacks.push((id, Arc::clone(s), 1));
                }
                proof {
                    assert(stack_ids(es2, n) == old_seen.push(id));
                    assert(stack_count(es, n, id) == 0) by {
                        if stack_count(es, n, id) > 0 {
                            lemma_stack_count_listed(es, n, id);
                        }
                    }
                    let cs = f.call_stacks@;
                    assert forall|j: int| 0 <= j < cs.len() implies (#[trigger] cs[j]).0
                        == kept_stacks(es2, n)[j] && Some(cs[j].1) == stack_of(es2, n, cs[j].0)
                        && cs[j].2 == stack_count(es2, n, cs[j].0) by {
                        if j < old_stacks.len() {
                            assert(cs[j] == old_stacks[j]);
                            assert(old_seen.contains(cs[j].0)) by {
                                assert(old_seen[j] == cs[j].0);
                            }
                        }
                    }
                }
            } else {
                assert(old_seen[p as int] == id);
                assert(old_seen.contains(id));
                let mut q: usize = 0;
                while q < f.call_stacks.len() && f.call_stacks[q].0 != id
                    invariant
                        q <= f.call_stacks.len(),
                        forall|j: int| 0 <= j < q ==> f.call_stacks@[j].0 != id,
                    decreases f.call_stacks.len() - q,
                {
                    q += 1;
                }
                if q < f.call_stacks.len() {
                    let (sid, arc, c) = (f.call_stacks[q].0, Arc::clone(&f.call_stacks[q].1), f.call_stacks[q].2);
                    f.call_stacks.set(q, (sid, arc, c + 1));
                }
                proof {
                    assert(stack_ids(es2, n) == old_seen);
                    let cs = f.call_stacks@;
                    assert forall|j: int| 0 <= j < cs.len() implies (#[trigger] cs[j]).0
                        == kept_stacks(es2, n)[j] && Some(cs[j].1) == stack_of(es2, n, cs[j].0)
                        && cs[j].2 == stack_count(es2, n, cs[j].0) by {
                        assert(old_seen.contains(old_stacks[j].0)) by {
                            assert(old_seen[j] == old_stacks[j].0);
                        }
                        if j != q {
                            assert(cs[j] == old_stacks[j]);
                        }
                    }
                }
            }
        },
        None => {
            proof {
                assert(stack_ids(es2, n) == old_seen);
                let cs = f.call_stacks@;
                assert forall|j: int| 0 <= j < cs.len() implies (#[trigger] cs[j]).0
                    == kept_stacks(es2, n)[j] && Some(cs[j].1) == stack_of(es2, n, cs[j].0)
                    && cs[j].2 == stack_count(es2, n, cs[j].0) by {
                    assert(old_seen.contains(old_stacks[j].0)) by {
                        assert(old_seen[j] == old_stacks[j].0);
                    }
                }
            }
        },
    }
}

proof fn lemma_stack_count_listed(es: Seq<TraceEvent>, n: Seq<char>, id: i64)
    requires
        stack_count(es, n, id) > 0,
    ensures
        stack_ids(es, n).contains(id),
    decreases es.len(),
{
    if es.len() > 0 {
        let prev = stack_ids(es.drop_last(), n);
        if stack_count(es.drop_last(), n, id) > 0 {
            lemma_stack_count_listed(es.drop_last(), n, id);
            let j = choose|j: int| 0 <= j < prev.len() && prev[j] == id;
            assert(stack_ids(es, n)[j] == id);
        } else if !prev.contains(id) {
            assert(stack_ids(es, n)[prev.len() as int] == id);
        }
    }
}

/// Adds a sample (or a scheduler-time event, which changes nothing) to the
/// statistics of all functions.
fn record_into(fs: &mut Vec<FunctionStats>, e: &TraceEvent, Ghost(es): Ghost<Seq<TraceEvent>>)
    requires
        stats_ok(old(fs)@, es),
        sample_total(es) < u64::MAX,
    ensures
        stats_ok(final(fs)@, es.push(*e)),
{
    let ghost es2 = es.push(*e);
    assert(es2.drop_last() =~= es);
    proof {
        reveal_strlit("execution");
    }
    if str_eq(e.name.as_str(), "execution") {
        proof {
            assert forall|k: int| 0 <= k < fs@.len() implies stats_match(#[trigger] fs@[k], es2) by {
                lemma_stats_unaffected(fs@[k], es, *e);
            }
            assert forall|n: Seq<char>| #[trigger] name_count(es2, n) > 0 implies exists|j: int|
                0 <= j < fs@.len() && fs@[j].name@ == n by {
                assert(name_count(es2, n) == name_count(es, n));
            }
        }
        return;
    }
    let mut k: usize = 0;
    while k < fs.len() && !str_eq(fs[k].name.as_str(), e.name.as_str())
        invariant
            k <= fs.len(),
            forall|j: int| 0 <= j < k ==> fs@[j].name@ != e.name@,
        decreases fs.len() - k,
    {
        k += 1;
    }
    let ghost old_fs = fs@;
    if k < fs.len() {
        update_stats(&mut fs[k], e, Ghost(es));
        proof {
            assert forall|j: int| 0 <= j < fs@.len() && j != k implies stats_match(#[trigger] fs@[j], es2) by {
                assert(fs@[j] == old_fs[j]);
                lemma_stats_unaffected(old_fs[j], es, *e);
            }
        }
    } else {
        proof {
            if name_count(es, e.name@) > 0 {
                let j = choose|j: int| 0 <= j < old_fs.len() && old_fs[j].name@ == e.name@;
                assert(false);
            }
        }
        let f = new_stats(e, Ghost(es));
        fs.push(f);
        proof {
            assert forall|j: int| 0 <= j < old_fs.len() implies stats_match(#[trigger] fs@[j], es2) by {
                assert(fs@[j] == old_fs[j]);
                lemma_stats_unaffected(old_fs[j], es, *e);
            }
        }
    }
    proof {
        let nfs = fs@;
        assert forall|n: Seq<char>| #[trigger] name_count(es2, n) > 0 implies exists|j: int|
            0 <= j < nfs.len() && nfs[j].name@ == n by {
            if n == e.name@ {
                assert(nfs[k as int].name@ == n);
            } else {
                assert(name_count(es, n) > 0);
                let j = choose|j: int| 0 <= j < old_fs.len() && old_fs[j].name@ == n;
                assert(nfs[j].name@ == n);
            }
        }
        assert forall|i: int, j: int| 0 <= i < j < nfs.len() implies #[trigger] nfs[i].name@
            != #[trigger] nfs[j].name@ by {
            if j < old_fs.len() {
                assert(nfs[i].name@ == old_fs[i].name@ && nfs[j].name@ == old_fs[j].name@);
            } else {
                assert(nfs[i].name@ == old_fs[i].name@);
            }
        }
    }
}


spec fn stack_entry_ok(es: Seq<TraceEvent>, n: Seq<char>, e: (i64, Arc<Vec<StackFrame>>, u64)) -> bool {
    Some(e.1) == stack_of(es, n, e.0) && e.2 == stack_count(es, n, e.0)
}

spec fn entry_ids(v: Seq<(i64, Arc<Vec<StackFrame>>, u64)>) -> Seq<i64> {
    Seq::new(v.len(), |i: int| v[i].0)
}

/// The hotspot for one function's statistics, its stacks sorted from the
/// most to the least frequent.
fn hotspot_from(f: &FunctionStats, Ghost(es): Ghost<Seq<TraceEvent>>) -> (h:
    FunctionHotspot)
    requires
        stats_match(*f, es),
        sample_total(es) <= usize::MAX,
    ensures
        ranked_hotspot(h, es),
        h.name@ == f.name@,
{
    let ghost n = f.name@;
    proof {
        lemma_counts_bounded(es, n, 0, 0);
    }
    let mut workers: Vec<(u32, usize)> = Vec::new();
    let mut i: usize = 0;
    while i < f.workers.len()
        invariant
            i <= f.workers.len(),
            stats_workers_match(f.workers@, es, n),
            name_count(es, n) <= sample_total(es) <= usize::MAX,
            workers@.len() == i,
            forall|j: int| 0 <= j < i ==> #[trigger] workers@[j].0 == f.workers@[j].0 && workers@[j].1 == f.workers@[j].1,
        decreases f.workers.len() - i,
    {
        let (w, c) = f.workers[i];
        proof {
            lemma_counts_bounded(es, n, w, 0);
        }
        workers.push((w, c as usize));
        i += 1;
    }
    proof {
        let ws = workers@;
        let fw = f.workers@;
        assert forall|a: int, b: int| 0 <= a < b < ws.len() implies #[trigger] ws[a].0 != #[trigger] ws[b].0 by {
            assert(fw[a].0 != fw[b].0);
        }
        assert forall|j: int| 0 <= j < ws.len() implies #[trigger] ws[j].1 == worker_count(es, n, ws[j].0) && ws[j].1 > 0 by {
            assert(fw[j].1 == worker_count(es, n, fw[j].0));
        }
        assert forall|w: u32| #[trigger] worker_count(es, n, w) > 0 implies exists|j: int| 0 <= j < ws.len() && ws[j].0 == w by {
            let j = choose|j: int| 0 <= j < fw.len() && fw[j].0 == w;
            assert(ws[j].0 == w);
        }
    }
    // stacks, ordered by frequency
    let ghost kept = kept_stacks(es, n);
    let mut entries: Vec<(i64, Arc<Vec<StackFrame>>, u64)> = Vec::new();
    let mut k: usize = 0;
    assert(entry_ids(entries@) =~= kept.subrange(0, 0));
    while k < f.call_stacks.len()
        invariant
            k <= f.call_stacks.len(),
            stats_match(*f, es),
            kept == kept_stacks(es, n),
            n == f.name@,
            forall|j: int| 0 <= j < entries@.len() ==> stack_entry_ok(es, n, #[trigger] entries@[j]),
            entry_ids(entries@).to_multiset() == kept.subrange(0, k as int).to_multiset(),
            forall|a: int, b: int| 0 <= a < b < entries@.len() ==> (#[trigger] entries@[a]).2 >= (#[trigger] entries@[b]).2,
        decreases f.call_stacks.len() - k,
    {
        let e = (f.call_stacks[k].0, Arc::clone(&f.call_stacks[k].1), f.call_stacks[k].2);
        assert(e.0 == kept[k as int]);
        assert(stack_entry_ok(es, n, e));
        let ghost old_entries = entries@;
        let ghost next = kept.subrange(0, k + 1);
        assert(next =~= kept.subrange(0, k as int).push(e.0));
        proof {
            vstd::seq_lib::to_multiset_build(kept.subrange(0, k as int), e.0);
        }
        let mut p: usize = 0;
        while p < entries.len() && entries[p].2 >= e.2
            invariant
                p <= entries.len(),
                entries@ == old_entries,
                forall|j: int| 0 <= j < p ==> entries@[j].2 >= e.2,
            decreases entries.len() - p,
        {
            p += 1;
        }
        entries.insert(p, e);
        proof {
            let ne = entries@;
            assert(ne =~= old_entries.insert(p as int, e));
            assert(entry_ids(ne) =~= entry_ids(old_entries).insert(p as int, e.0));
            vstd::seq_lib::to_multiset_insert(entry_ids(old_entries), p as int, e.0);
            assert forall|a: int, b: int| 0 <= a < b < ne.len() implies (#[trigger] ne[a]).2 >= (#[trigger] ne[b]).2 by {
                if b < p {
                } else if b == p {
                } else if a < p {
                    assert(ne[b] == old_entries[b - 1]);
                } else if a == p {
                    assert(ne[b] == old_entries[b - 1]);
                    if b - 1 > p {
                        assert(old_entries[p as int].2 >= old_entries[b - 1].2);
                    }
                } else {
                    assert(ne[a] == old_entries[a - 1]);
                    assert(ne[b] == old_entries[b - 1]);
                }
            }
            assert forall|j: int| 0 <= j < ne.len() implies stack_entry_ok(es, n, #[trigger] ne[j]) by {
                if j < p {
                    assert(ne[j] == old_entries[j]);
                } else if j > p {
                    assert(ne[j] == old_entries[j - 1]);
                }
            }
        }
        k += 1;
    }
    assert(kept.subrange(0, f.call_stacks.len() as int) =~= kept);
    let ghost ids = entry_ids(entries@);
    let mut stacks: Vec<Arc<Vec<StackFrame>>> = Vec::new();
    let mut m: usize = 0;
    while m < entries.len()
        invariant
            m <= entries.len(),
            stacks@.len() == m,
            forall|j: int| 0 <= j < m ==> #[trigger] stacks@[j] == entries@[j].1,
        decreases entries.len() - m,
    {
        stacks.push(Arc::clone(&entries[m].1));
        m += 1;
    }
    let h = FunctionHotspot {
        name: f.name.clone(),
        count: f.count as usize,
        workers,
        file: opt_string_clone(&f.file),
        line: f.line,
        call_stacks: stacks,
    };
    proof {
        assert forall|j: int| 0 <= j < ids.len() implies Some(#[trigger] h.call_stacks@[j]) == stack_of(es, n, ids[j]) by {
            assert(stack_entry_ok(es, n, entries@[j]));
        }
        assert(hotspot_describes(h, es, ids));
        assert forall|a: int, b: int| 0 <= a < b < ids.len() implies stack_count(es, n, #[trigger] ids[a]) >= stack_count(es, n, #[trigger] ids[b]) by {
            assert(stack_entry_ok(es, n, entries@[a]));
            assert(stack_entry_ok(es, n, entries@[b]));
            assert(entries@[a].2 >= entries@[b].2);
        }
        assert(ranked_hotspot(h, es));
    }
    h
}

/// The hotspots of all functions, most sampled first.
fn hotspots_from(fs: &Vec<FunctionStats>, Ghost(es): Ghost<Seq<TraceEvent>>) -> (r: Vec<FunctionHotspot>)
    requires
        stats_ok(fs@, es),
        sample_total(es) <= usize::MAX,
    ensures
        hotspots_of(es, r@),
        forall|i: int| 0 <= i < r@.len() ==> ranked_hotspot(#[trigger] r@[i], es),
        count_sum(r@) == sample_total(es),
{
    let mut out: Vec<FunctionHotspot> = Vec::new();
    let mut i: usize = 0;
    while i < fs.len()
        invariant
            i <= fs.len(),
            stats_ok(fs@, es),
            sample_total(es) <= usize::MAX,
            forall|a: int, b: int| 0 <= a < b < out@.len() ==> #[trigger] out@[a].name@ != #[trigger] out@[b].name@,
            forall|a: int, b: int| 0 <= a < b < out@.len() ==> #[trigger] out@[a].count >= #[trigger] out@[b].count,
            forall|j: int| 0 <= j < out@.len() ==> ranked_hotspot(#[trigger] out@[j], es),
            forall|j: int| 0 <= j < out@.len() ==> exists|q: int| 0 <= q < i && #[trigger] out@[j].name@ == fs@[q].name@,
            forall|q: int| 0 <= q < i ==> hotspot_names(out@).contains(#[trigger] fs@[q].name@),
            out@.len() == i,
        decreases fs.len() - i,
    {
        let h = hotspot_from(&fs[i], Ghost(es));
        assert(stats_match(fs@[i as int], es));
        let ghost old_out = out@;
        let mut p: usize = 0;
        while p < out.len() && out[p].count >= h.count
            invariant
                p <= out.len(),
                out@ == old_out,
                forall|j: int| 0 <= j < p ==> out@[j].count >= h.count,
            decreases out.len() - p,
        {
            p += 1;
        }
        proof {
            assert forall|j: int| 0 <= j < old_out.len() implies old_out[j].name@ != h.name@ by {
                let q = choose|q: int| 0 <= q < i && #[trigger] old_out[j].name@ == fs@[q].name@;
                assert(fs@[q].name@ != fs@[i as int].name@);
            }
        }
        out.insert(p, h);
        proof {
            let no = out@;
            assert(no =~= old_out.insert(p as int, h));
            assert forall|a: int, b: int| 0 <= a < b < no.len() implies #[trigger] no[a].name@ != #[trigger] no[b].name@ by {
                if b < p {
                } else if b == p {
                } else if a < p {
                    assert(no[b] == old_out[b - 1]);
                } else if a == p {
                    assert(no[b] == old_out[b - 1]);
                } else {
                    assert(no[a] == old_out[a - 1]);
                    assert(no[b] == old_out[b - 1]);
                }
            }
            assert forall|a: int, b: int| 0 <= a < b < no.len() implies #[trigger] no[a].count >= #[trigger] no[b].count by {
                if b < p {
                } else if b == p {
                } else if a < p {
                    assert(no[b] == old_out[b - 1]);
                } else if a == p {
                    assert(no[b] == old_out[b - 1]);
                    if b - 1 > p {
                        assert(old_out[p as int].count >= old_out[b - 1].count);
                    }
                } else {
                    assert(no[a] == old_out[a - 1]);
                    assert(no[b] == old_out[b - 1]);
                }
            }
            assert forall|j: int| 0 <= j < no.len() implies ranked_hotspot(#[trigger] no[j], es) by {
                if j < p {
                    assert(no[j] == old_out[j]);
                } else if j > p {
                    assert(no[j] == old_out[j - 1]);
                }
            }
            assert forall|j: int| 0 <= j < no.len() implies exists|q: int| 0 <= q < i + 1 && #[trigger] no[j].name@ == fs@[q].name@ by {
                if j < p {
                    assert(no[j] == old_out[j]);
                } else if j > p {
                    assert(no[j] == old_out[j - 1]);
                } else {
                    assert(no[j].name@ == fs@[i as int].name@);
                }
            }
            assert forall|q: int| 0 <= q < i + 1 implies hotspot_names(no).contains(#[trigger] fs@[q].name@) by {
                if q == i {
                    assert(hotspot_names(no)[p as int] == fs@[q].name@);
                } else {
                    assert(hotspot_names(old_out).contains(fs@[q].name@));
                    let j = choose|j: int| 0 <= j < old_out.len() && hotspot_names(old_out)[j] == fs@[q].name@;
                    if j < p {
                        assert(hotspot_names(no)[j] == fs@[q].name@);
                    } else {
                        assert(hotspot_names(no)[j + 1] == fs@[q].name@);
                    }
                }
            }
        }
        i += 1;
    }
    proof {
        assert forall|n: Seq<char>| #[trigger] name_count(es, n) > 0 implies hotspot_names(out@).contains(n) by {
            let k = choose|k: int| 0 <= k < fs@.len() && fs@[k].name@ == n;
            assert(hotspot_names(out@).contains(fs@[k].name@));
        }
        lemma_count_sum(out@, es);
    }
    out
}

proof fn lemma_count_sum(hs: Seq<FunctionHotspot>, es: Seq<TraceEvent>)
    requires
        hotspots_of(es, hs),
        forall|i: int| 0 <= i < hs.len() ==> ranked_hotspot(#[trigger] hs[i], es),
    ensures
        count_sum(hs) == sample_total(es),
{
    let names = hotspot_names(hs);
    assert forall|i: int| 0 <= i < hs.len() implies #[trigger] hs[i].count == name_count(es, names[i]) by {
        let ids = choose|ids: Seq<i64>| #[trigger] hotspot_describes(hs[i], es, ids) && by_frequency(es, hs[i].name@, ids);
    }
    lemma_names_count_sum(names, es);
    lemma_count_sum_is_names_sum(hs, es);
}

/// Sum over `names` of their sample counts.
spec fn names_sum(names: Seq<Seq<char>>, es: Seq<TraceEvent>) -> nat
    decreases names.len(),
{
    if names.len() == 0 {
        0
    } else {
        names_sum(names.drop_last(), es) + name_count(es, names.last())
    }
}

proof fn lemma_count_sum_is_names_sum(hs: Seq<FunctionHotspot>, es: Seq<TraceEvent>)
    requires
        forall|i: int| 0 <= i < hs.len() ==> #[trigger] hs[i].count == name_count(es, hotspot_names(hs)[i]),
    ensures
        count_sum(hs) == names_sum(hotspot_names(hs), es),
    decreases hs.len(),
{
    if hs.len() > 0 {
        let t = hs.drop_last();
        assert(hotspot_names(t) =~= hotspot_names(hs).drop_last());
        assert forall|i: int| 0 <= i < t.len() implies #[trigger] t[i].count == name_count(es, hotspot_names(t)[i]) by {
            assert(t[i] == hs[i]);
        }
        lemma_count_sum_is_names_sum(t, es);
        assert(hs[hs.len() - 1].count == name_count(es, hotspot_names(hs)[hs.len() - 1]));
    }
}

/// How many entries of `names` equal `m`.
spec fn occurrences(names: Seq<Seq<char>>, m: Seq<char>) -> nat
    decreases names.len(),
{
    if names.len() == 0 {
        0
    } else {
        occurrences(names.drop_last(), m) + if names.last() == m {
            1nat
        } else {
            0nat
        }
    }
}

proof fn lemma_occurrences_distinct(names: Seq<Seq<char>>, m: Seq<char>)
    requires
        forall|i: int, j: int| 0 <= i < j < names.len() ==> #[trigger] names[i] != #[trigger] names[j],
    ensures
        occurrences(names, m) == if names.contains(m) {
            1nat
        } else {
            0nat
        },
    decreases names.len(),
{
    if names.len() > 0 {
        let t = names.drop_last();
        assert forall|i: int, j: int| 0 <= i < j < t.len() implies #[trigger] t[i] != #[trigger] t[j] by {
            assert(t[i] == names[i] && t[j] == names[j]);
        }
        lemma_occurrences_distinct(t, m);
        if names.last() == m {
            if t.contains(m) {
                let i = choose|i: int| 0 <= i < t.len() && t[i] == m;
                assert(names[i] == names[names.len() - 1]);
            }
            assert(names.contains(m)) by {
                assert(names[names.len() - 1] == m);
            }
        } else {
            if names.contains(m) {
                let i = choose|i: int| 0 <= i < names.len() && names[i] == m;
                assert(t[i] == m);
            }
            if t.contains(m) {
                let i = choose|i: int| 0 <= i < t.len() && t[i] == m;
                assert(names[i] == m);
            }
        }
    }
}

/// Adding one event to `es` adds to the sum over `names` once for each entry
/// naming its function.
proof fn lemma_names_sum_step(names: Seq<Seq<char>>, es: Seq<TraceEvent>, e: TraceEvent)
    ensures
        names_sum(names, es.push(e)) == names_sum(names, es) + if is_sample(e) {
            occurrences(names, e.name@)
        } else {
            0nat
        },
    decreases names.len(),
{
    let es2 = es.push(e);
    assert(es2.drop_last() =~= es);
    if names.len() > 0 {
        lemma_names_sum_step(names.drop_last(), es, e);
    }
}

proof fn lemma_names_count_sum(names: Seq<Seq<char>>, es: Seq<TraceEvent>)
    requires
        forall|i: int, j: int| 0 <= i < j < names.len() ==> #[trigger] names[i] != #[trigger] names[j],
        forall|n: Seq<char>| #[trigger] name_count(es, n) > 0 ==> names.contains(n),
    ensures
        names_sum(names, es) == sample_total(es),
    decreases es.len(),
{
    if es.len() == 0 {
        lemma_names_sum_empty(names, es);
    } else {
        let t = es.drop_last();
        let e = es.last();
        assert(es =~= t.push(e));
        assert forall|n: Seq<char>| #[trigger] name_count(t, n) > 0 implies names.contains(n) by {
            assert(name_count(es, n) >= name_count(t, n));
        }
        lemma_names_count_sum(names, t);
        lemma_names_sum_step(names, t, e);
        if is_sample(e) {
            assert(name_count(es, e.name@) > 0);
            lemma_occurrences_distinct(names, e.name@);
        }
    }
}

proof fn lemma_names_sum_empty(names: Seq<Seq<char>>, es: Seq<TraceEvent>)
    requires
        es.len() == 0,
    ensures
        names_sum(names, es) == 0,
    decreases names.len(),
{
    if names.len() > 0 {
        lemma_names_sum_empty(names.drop_last(), es);
    }
}

impl HotspotStats {
    /// The events recorded so far, in order.
    pub closed spec fn recorded(&self) -> Seq<TraceEvent> {
        self.recorded@
    }

    /// The statistics describe the recorded events.
    pub closed spec fn wf(&self) -> bool {
        &&& stats_ok(self.functions@, self.recorded@)
        &&& self.total_samples == sample_total(self.recorded@)
        &&& sample_total(self.recorded@) <= usize::MAX
    }

    /// Creates empty statistics.
    pub fn new() -> (r: Self)
        ensures
            r.wf(),
            r.recorded() == Seq::<TraceEvent>::empty(),
    {
        HotspotStats { functions: Vec::new(), total_samples: 0, recorded: Ghost(Seq::empty()) }
    }

    /// Records an event; scheduler-time events (`execution`) are not counted.
    pub fn record_event(&mut self, event: &TraceEvent)
        requires
            old(self).wf(),
            sample_total(old(self).recorded()) < usize::MAX,
        ensures
            final(self).wf(),
            final(self).recorded() == old(self).recorded().push(*event),
    {
        let ghost es = self.recorded@;
        proof {
            reveal_strlit("execution");
        }
        record_into(&mut self.functions, event, Ghost(es));
        let ghost es2 = es.push(*event);
        assert(es2.drop_last() =~= es);
        if !str_eq(event.name.as_str(), "execution") {
            self.total_samples = self.total_samples + 1;
        }
        self.recorded = Ghost(es2);
    }

    /// Number of samples recorded (events other than `execution`).
    pub fn total_samples(&self) -> (r: u64)
        requires
            self.wf(),
        ensures
            r == sample_total(self.recorded()),
    {
        self.total_samples
    }

    /// The hotspots of the recorded samples, most sampled first, each with
    /// its stacks from the most to the least frequent.
    pub fn to_hotspots(&self) -> (r: Vec<FunctionHotspot>)
        requires
            self.wf(),
        ensures
            hotspots_of(self.recorded(), r@),
            forall|i: int| 0 <= i < r@.len() ==> ranked_hotspot(#[trigger] r@[i], self.recorded()),
            count_sum(r@) == sample_total(self.recorded()),
    {
        let r = hotspots_from(&self.functions, Ghost(self.recorded@));
        proof {
            assert forall|i: int| 0 <= i < r@.len() implies ranked_hotspot(#[trigger] r@[i], self.recorded()) by {
                assert(ranked_hotspot(r@[i], self.recorded@));
            }
        }
        r
    }
}

/// The hotspots of a snapshot, most sampled first, each with its stacks from
/// the most to the least frequent.
pub fn analyze_hotspots(data: &TraceData) -> (r: Vec<FunctionHotspot>)
    ensures
        hotspots_of(data.events@, r@),
        forall|i: int| 0 <= i < r@.len() ==> ranked_hotspot(#[trigger] r@[i], data.events@),
        count_sum(r@) == sample_total(data.events@),
{
    let mut fs: Vec<FunctionStats> = Vec::new();
    let mut i: usize = 0;
    while i < data.events.len()
        invariant
            i <= data.events.len(),
            stats_ok(fs@, data.events@.subrange(0, i as int)),
        decreases data.events.len() - i,
    {
        let ghost pre = data.events@.subrange(0, i as int);
        proof {
            lemma_counts_bounded(pre, seq![], 0, 0);
        }
        record_into(&mut fs, &data.events[i], Ghost(pre));
        assert(pre.push(data.events@[i as int]) =~= data.events@.subrange(0, i + 1));
        i += 1;
    }
    assert(data.events@.subrange(0, data.events.len() as int) =~= data.events@);
    proof {
        lemma_counts_bounded(data.events@, seq![], 0, 0);
    }
    let r = hotspots_from(&fs, Ghost(data.events@));
    proof {
        assert forall|i: int| 0 <= i < r@.len() implies ranked_hotspot(#[trigger] r@[i], data.events@) by {
            assert(ranked_hotspot(r@[i], data.events@));
        }
    }
    r
}

/// The incremental statistics and the batch analysis agree: for the same
/// samples, every hotspot of one has a hotspot of the same function in the
/// other, with the same count, per-worker counts and source location.
pub proof fn lemma_live_matches_batch(
    es: Seq<TraceEvent>,
    live: Seq<FunctionHotspot>,
    batch: Seq<FunctionHotspot>,
)
    requires
        hotspots_of(es, live),
        forall|i: int| 0 <= i < live.len() ==> ranked_hotspot(#[trigger] live[i], es),
        hotspots_of(es, batch),
        forall|i: int| 0 <= i < batch.len() ==> ranked_hotspot(#[trigger] batch[i], es),
    ensures
        forall|i: int| 0 <= i < live.len() ==> has_counterpart(#[trigger] live[i], batch, es),
        forall|j: int| 0 <= j < batch.len() ==> has_counterpart(#[trigger] batch[j], live, es),
{
    assert forall|i: int| 0 <= i < live.len() implies has_counterpart(#[trigger] live[i], batch, es) by {
        let n = live[i].name@;
        let ids = choose|ids: Seq<i64>| #[trigger] hotspot_describes(live[i], es, ids) && by_frequency(es, n, ids);
        assert(hotspot_names(batch).contains(n));
        let j = choose|j: int| 0 <= j < batch.len() && hotspot_names(batch)[j] == n;
        assert(batch[j].name@ == n);
        assert(ranked_hotspot(batch[j], es));
        let bids = choose|ids: Seq<i64>| #[trigger] hotspot_describes(batch[j], es, ids) && by_frequency(es, n, ids);
        assert(same_hotspot(live[i], batch[j], es));
    }
    assert forall|j: int| 0 <= j < batch.len() implies has_counterpart(#[trigger] batch[j], live, es) by {
        let n = batch[j].name@;
        assert(hotspot_names(live).contains(n));
        let i = choose|i: int| 0 <= i < live.len() && hotspot_names(live)[i] == n;
        assert(live[i].name@ == n);
        let ids = choose|ids: Seq<i64>| #[trigger] hotspot_describes(live[i], es, ids) && by_frequency(es, n, ids);
        assert(ranked_hotspot(batch[j], es));
        let bids = choose|ids: Seq<i64>| #[trigger] hotspot_describes(batch[j], es, ids) && by_frequency(es, n, ids);
        assert(same_hotspot(batch[j], live[i], es));
    }
}

/// What one recorded event changes. An `execution` event changes no figure.
/// A sample of function `n` adds one to the sample total, to `n`'s count,
/// to the count of `n` on the sample's worker and, when it carries a stack,
/// to that stack's count; every other function and worker keeps its figures.
/// A function's source file and line are those of its first sample and
/// never change afterwards.
pub proof fn lemma_record_event_step(
    before: HotspotStats,
    after: HotspotStats,
    e: TraceEvent,
    n: Seq<char>,
    w: u32,
    id: i64,
)
    requires
        after.recorded() == before.recorded().push(e),
    ensures
        sample_total(after.recorded()) == sample_total(before.recorded()) + if is_sample(e) { 1nat } else { 0nat },
        name_count(after.recorded(), n) == name_count(before.recorded(), n) + if sample_of(e, n) { 1nat } else { 0nat },
        worker_count(after.recorded(), n, w) == worker_count(before.recorded(), n, w) + if sample_of(e, n)
            && e.worker_id == w { 1nat } else { 0nat },
        stack_count(after.recorded(), n, id) == stack_count(before.recorded(), n, id) + if stacked_sample_of(e, n)
            && e.stack_id == id { 1nat } else { 0nat },
        name_count(before.recorded(), n) > 0 ==> location_of(after.recorded(), n) == location_of(before.recorded(), n),
        name_count(before.recorded(), n) == 0 && sample_of(e, n) ==> location_of(after.recorded(), n) == (
            opt_view(e.file),
            e.line,
        ),
{
    let es = before.recorded();
    assert(after.recorded().drop_last() =~= es);
    assert(after.recorded().last() == e);
}

/// What one recorded event does to the hotspot of a function that already
/// had samples: its count and the count of the event's worker go up by one
/// when the event is a sample of that function, every other worker's count
/// stays, and its source file and line do not change. (A function sampled
/// for the first time is covered by `lemma_record_event_step`: count 1, the
/// event's file and line.)
pub proof fn lemma_record_event_hotspot(
    before: HotspotStats,
    after: HotspotStats,
    e: TraceEvent,
    h0: FunctionHotspot,
    h1: FunctionHotspot,
    w: u32,
)
    requires
        after.recorded() == before.recorded().push(e),
        ranked_hotspot(h0, before.recorded()),
        ranked_hotspot(h1, after.recorded()),
        h0.name@ == h1.name@,
    ensures
        h1.count == h0.count + if sample_of(e, h0.name@) { 1int } else { 0int },
        opt_view(h1.file) == opt_view(h0.file) && h1.line == h0.line,
        forall|j0: int, j1: int|
            0 <= j0 < h0.workers@.len() && 0 <= j1 < h1.workers@.len() && (#[trigger] h0.workers@[j0]).0 == w && (
            #[trigger] h1.workers@[j1]).0 == w ==> h1.workers@[j1].1 == h0.workers@[j0].1 + if sample_of(e, h0.name@)
                && e.worker_id == w { 1int } else { 0int },
{
    let n = h0.name@;
    let es = before.recorded();
    let es1 = after.recorded();
    let ids0 = choose|ids: Seq<i64>| #[trigger] hotspot_describes(h0, es, ids) && by_frequency(es, n, ids);
    let ids1 = choose|ids: Seq<i64>| #[trigger] hotspot_describes(h1, es1, ids) && by_frequency(es1, n, ids);
    lemma_record_event_step(before, after, e, n, w, 0);
    assert forall|j0: int, j1: int|
        0 <= j0 < h0.workers@.len() && 0 <= j1 < h1.workers@.len() && (#[trigger] h0.workers@[j0]).0 == w && (
        #[trigger] h1.workers@[j1]).0 == w implies h1.workers@[j1].1 == h0.workers@[j0].1 + if sample_of(e, n)
            && e.worker_id == w { 1int } else { 0int } by {
        assert(workers_match(h0.workers@, es, n));
        assert(workers_match(h1.workers@, es1, n));
    }
}

/// `hs` holds a hotspot with the same figures as `h`.
pub open spec fn has_counterpart(h: FunctionHotspot, hs: Seq<FunctionHotspot>, es: Seq<TraceEvent>) -> bool {
    exists|j: int| 0 <= j < hs.len() && #[trigger] same_hotspot(h, hs[j], es)
}

/// Two hotspots of the same function in `es` with the same figures.
pub open spec fn same_hotspot(a: FunctionHotspot, b: FunctionHotspot, es: Seq<TraceEvent>) -> bool {
    &&& a.name@ == b.name@
    &&& a.count == b.count
    &&& a.count == name_count(es, a.name@)
    &&& workers_match(a.workers@, es, a.name@)
    &&& workers_match(b.workers@, es, b.name@)
    &&& opt_view(a.file) == opt_view(b.file)
    &&& a.line == b.line
}

} // verus!
