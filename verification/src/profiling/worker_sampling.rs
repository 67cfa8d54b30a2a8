//! Telling Tokio workers from the blocking pool by the frames of their
//! sampled stacks, and numbering the workers found.
//!
//! A thread whose stack shows `scheduler::multi_thread::worker` is a
//! worker; one that shows `tokio::runtime::blocking::pool::Inner::run`
//! without worker frames belongs to the blocking pool. A worker seen once
//! stays a worker.
use crate::domain::types::Tid;
use crate::profiling::stack_resolver::{adjust_address, adjusted};
use crate::profiling::worker_discovery::WorkerInfo;
use crate::symbolization::memory_maps::MemoryRange;
use crate::text::{chars_of, contains_chars, contains_seq, is_prefix, starts_with_chars};
use vstd::prelude::*;

verus! {

/// Classification of a thread by its stack.
#[derive(Debug, Clone, Copy, PartialEq, Eq, Structural)]
pub enum ThreadClass {
    /// Tokio multi-thread scheduler worker.
    Worker,
    /// Tokio blocking thread pool (`spawn_blocking`).
    BlockingPool,
    /// No recognizable Tokio frames.
    Unknown,
}

/// Frame marking a worker of the multi-thread scheduler.
pub open spec fn worker_marker() -> Seq<char> {
    "scheduler::multi_thread::worker"@
}

/// Frame marking the blocking pool.
pub open spec fn blocking_marker() -> Seq<char> {
    "tokio::runtime::blocking::pool::Inner::run"@
}

/// The class of a stack whose symbolized frames have these function names.
pub open spec fn class_of_names(names: Seq<Seq<char>>) -> ThreadClass {
    if exists|i: int| 0 <= i < names.len() && contains_seq(#[trigger] names[i], worker_marker()) {
        ThreadClass::Worker
    } else if exists|i: int| 0 <= i < names.len() && is_prefix(blocking_marker(), #[trigger] names[i]) {
        ThreadClass::BlockingPool
    } else {
        ThreadClass::Unknown
    }
}

/// The rank of a class: a worker outranks the blocking pool, which
/// outranks unknown.
pub open spec fn rank(c: ThreadClass) -> int {
    match c {
        ThreadClass::Worker => 2,
        ThreadClass::BlockingPool => 1,
        ThreadClass::Unknown => 0,
    }
}

/// Classifies a stack by the function names of its symbolized frames, in
/// order from the top.
pub fn classify_frame_names(names: &Vec<String>) -> (r: ThreadClass)
    ensures
        r == class_of_names(names@.map_values(|s: String| s@)),
{
    let ghost v = names@.map_values(|s: String| s@);
    let w = chars_of("scheduler::multi_thread::worker");
    let b = chars_of("tokio::runtime::blocking::pool::Inner::run");
    let mut has_blocking = false;
    let mut i: usize = 0;
    while i < names.len()
        invariant
            i <= names.len(),
            v == names@.map_values(|s: String| s@),
            w@ == worker_marker(),
            b@ == blocking_marker(),
            forall|j: int| 0 <= j < i ==> !contains_seq(#[trigger] v[j], worker_marker()),
            has_blocking <==> exists|j: int| 0 <= j < i && is_prefix(blocking_marker(), #[trigger] v[j]),
        decreases names.len() - i,
    {
        let f = chars_of(names[i].as_str());
        assert(f@ == v[i as int]);
        if contains_chars(f.as_slice(), w.as_slice()) {
            return ThreadClass::Worker;
        }
        if starts_with_chars(f.as_slice(), b.as_slice()) {
            has_blocking = true;
        }
        i += 1;
    }
    if has_blocking {
        ThreadClass::BlockingPool
    } else {
        ThreadClass::Unknown
    }
}

/// The higher ranked of two classes.
pub open spec fn upgraded(existing: ThreadClass, seen: ThreadClass) -> ThreadClass {
    if rank(seen) > rank(existing) {
        seen
    } else {
        existing
    }
}

/// The class of a thread after seeing one more of its stacks: the higher
/// ranked of the two.
pub fn upgrade_class(existing: ThreadClass, seen: ThreadClass) -> (r: ThreadClass)
    ensures
        r == upgraded(existing, seen),
{
    if seen == ThreadClass::Worker {
        ThreadClass::Worker
    } else if seen == ThreadClass::BlockingPool && existing == ThreadClass::Unknown {
        ThreadClass::BlockingPool
    } else {
        existing
    }
}

/// Upgrading never lowers a thread's class, seeing the same class again
/// changes nothing, and the class reached does not depend on the order in
/// which two stacks were seen.
pub proof fn lemma_upgrade_laws(existing: ThreadClass, a: ThreadClass, b: ThreadClass)
    ensures
        rank(upgraded(existing, a)) >= rank(existing),
        rank(upgraded(existing, a)) >= rank(a),
        upgraded(upgraded(existing, a), a) == upgraded(existing, a),
        upgraded(upgraded(existing, a), b) == upgraded(upgraded(existing, b), a),
{
}

/// Whether `tid` is listed in `ts`.
pub open spec fn listed(ts: Seq<(u32, ThreadClass)>, tid: u32, c: ThreadClass) -> bool {
    exists|i: int| 0 <= i < ts.len() && ts[i] == (tid, c)
}

/// Whether some worker of `ws` has thread id `tid`.
pub open spec fn has_tid(ws: Seq<WorkerInfo>, tid: u32) -> bool {
    exists|k: int| 0 <= k < ws.len() && #[trigger] ws[k].tid.0 == tid
}

/// Whether some thread of `ts` has thread id `tid`.
pub open spec fn thread_named(ts: Seq<(u32, String)>, tid: u32) -> bool {
    exists|j: int| 0 <= j < ts.len() && #[trigger] ts[j].0 == tid
}

/// Every thread classified as a worker in the first `n` classifications and
/// found among the threads has an entry in `ws`.
pub open spec fn covers_workers(
    ws: Seq<WorkerInfo>,
    classes: Seq<(u32, ThreadClass)>,
    ts: Seq<(u32, String)>,
    n: int,
) -> bool {
    forall|i: int|
        0 <= i < n && (#[trigger] classes[i]).1 == ThreadClass::Worker && thread_named(ts, classes[i].0)
            ==> has_tid(ws, classes[i].0)
}

proof fn lemma_has_tid_insert(ws: Seq<WorkerInfo>, p: int, w: WorkerInfo, tid: u32)
    requires
        0 <= p <= ws.len(),
        has_tid(ws, tid) || w.tid.0 == tid,
    ensures
        has_tid(ws.insert(p, w), tid),
{
    let nw = ws.insert(p, w);
    if w.tid.0 == tid {
        assert(nw[p].tid.0 == tid);
    } else {
        let k = choose|k: int| 0 <= k < ws.len() && #[trigger] ws[k].tid.0 == tid;
        if k < p {
            assert(nw[k] == ws[k]);
        } else {
            assert(nw[k + 1] == ws[k]);
        }
    }
}

/// Every worker of `ws` is a classified worker with a listed thread of the
/// same id and name.
pub open spec fn entries_backed(
    ws: Seq<WorkerInfo>,
    classes: Seq<(u32, ThreadClass)>,
    ts: Seq<(u32, String)>,
) -> bool {
    forall|k: int| 0 <= k < ws.len() ==> listed(classes, (#[trigger] ws[k]).tid.0, ThreadClass::Worker)
        && exists|j: int| 0 <= j < ts.len() && ts[j].0 == ws[k].tid.0 && ts[j].1@ == ws[k].comm@
}

/// Strictly increasing thread ids.
pub open spec fn tids_increasing(ws: Seq<WorkerInfo>) -> bool {
    forall|a: int, b: int| 0 <= a < b < ws.len() ==> #[trigger] ws[a].tid.0 < #[trigger] ws[b].tid.0
}

proof fn lemma_insert_worker(
    ws: Seq<WorkerInfo>,
    p: int,
    w: WorkerInfo,
    classes: Seq<(u32, ThreadClass)>,
    ts: Seq<(u32, String)>,
    j: int,
)
    requires
        0 <= p <= ws.len(),
        tids_increasing(ws),
        entries_backed(ws, classes, ts),
        forall|q: int| 0 <= q < p ==> ws[q].tid.0 < w.tid.0,
        p < ws.len() ==> ws[p].tid.0 > w.tid.0,
        listed(classes, w.tid.0, ThreadClass::Worker),
        0 <= j < ts.len() && ts[j].0 == w.tid.0 && ts[j].1@ == w.comm@,
    ensures
        tids_increasing(ws.insert(p, w)),
        entries_backed(ws.insert(p, w), classes, ts),
        forall|t: u32| has_tid(ws, t) ==> has_tid(ws.insert(p, w), t),
        has_tid(ws.insert(p, w), w.tid.0),
{
    let no = ws.insert(p, w);
    assert forall|a: int, b: int| 0 <= a < b < no.len() implies #[trigger] no[a].tid.0 < #[trigger] no[b].tid.0 by {
        if b < p {
        } else if b == p {
        } else if a < p {
            assert(no[b] == ws[b - 1]);
            if b - 1 > p {
                assert(ws[p].tid.0 < ws[b - 1].tid.0);
            }
        } else if a == p {
            assert(no[b] == ws[b - 1]);
            if b - 1 > p {
                assert(ws[p].tid.0 < ws[b - 1].tid.0);
            }
        } else {
            assert(no[a] == ws[a - 1]);
            assert(no[b] == ws[b - 1]);
        }
    }
    assert forall|k: int| 0 <= k < no.len() implies listed(classes, (#[trigger] no[k]).tid.0, ThreadClass::Worker)
        && exists|jj: int| 0 <= jj < ts.len() && ts[jj].0 == no[k].tid.0 && ts[jj].1@ == no[k].comm@ by {
        if k < p {
            assert(no[k] == ws[k]);
        } else if k > p {
            assert(no[k] == ws[k - 1]);
        } else {
            assert(ts[j].0 == no[k].tid.0);
        }
    }
    assert forall|t: u32| has_tid(ws, t) implies has_tid(no, t) by {
        lemma_has_tid_insert(ws, p, w, t);
    }
    lemma_has_tid_insert(ws, p, w, w.tid.0);
}

proof fn lemma_cover_step(
    before: Seq<WorkerInfo>,
    after: Seq<WorkerInfo>,
    classes: Seq<(u32, ThreadClass)>,
    ts: Seq<(u32, String)>,
    i: int,
)
    requires
        0 <= i < classes.len(),
        covers_workers(before, classes, ts, i),
        forall|t: u32| has_tid(before, t) ==> has_tid(after, t),
        classes[i].1 == ThreadClass::Worker && thread_named(ts, classes[i].0) ==> has_tid(after, classes[i].0),
    ensures
        covers_workers(after, classes, ts, i + 1),
{
    assert forall|q: int|
        0 <= q < i + 1 && (#[trigger] classes[q]).1 == ThreadClass::Worker && thread_named(ts, classes[q].0)
            implies has_tid(after, classes[q].0) by {
        if q < i {
            assert(has_tid(before, classes[q].0));
        }
    }
}

/// The workers among classified threads, numbered in increasing tid order;
/// a worker whose name is not among the threads is left out.
pub fn workers_from_classes(classes: &Vec<(u32, ThreadClass)>, threads: &[(u32, String)]) -> (r: Vec<WorkerInfo>)
    ensures
        tids_increasing(r@),
        forall|k: int| 0 <= k < r@.len() ==> (#[trigger] r@[k]).worker_id == k as u32,
        entries_backed(r@, classes@, threads@),
        covers_workers(r@, classes@, threads@, classes@.len() as int),
{
    let mut out: Vec<WorkerInfo> = Vec::new();
    let mut i: usize = 0;
    while i < classes.len()
        invariant
            i <= classes.len(),
            tids_increasing(out@),
            entries_backed(out@, classes@, threads@),
            covers_workers(out@, classes@, threads@, i as int),
        decreases classes.len() - i,
    {
        let (tid, class) = classes[i];
        let ghost before_step = out@;
        if class == ThreadClass::Worker {
            let mut j: usize = 0;
            while j < threads.len() && threads[j].0 != tid
                invariant
                    j <= threads.len(),
                    forall|q: int| 0 <= q < j ==> threads@[q].0 != tid,
                decreases threads.len() - j,
            {
                j += 1;
            }
            if j < threads.len() {
                let mut p: usize = 0;
                while p < out.len() && out[p].tid.0 < tid
                    invariant
                        p <= out.len(),
                        forall|q: int| 0 <= q < p ==> out@[q].tid.0 < tid,
                    decreases out.len() - p,
                {
                    p += 1;
                }
                if !(p < out.len() && out[p].tid.0 == tid) {
                    let ghost old_out = out@;
                    let w = WorkerInfo { tid: Tid(tid), worker_id: 0, comm: threads[j].1.clone() };
                    assert(listed(classes@, tid, ThreadClass::Worker)) by {
                        assert(classes@[i as int] == (tid, class));
                    }
                    out.insert(p, w);
                    proof {
                        assert(out@ =~= old_out.insert(p as int, w));
                        assert(threads@[j as int].0 == tid && threads@[j as int].1@ == w.comm@);
                        lemma_insert_worker(old_out, p as int, w, classes@, threads@, j as int);
                    }
                } else {
                    assert(out@[p as int].tid.0 == tid);
                    assert(has_tid(out@, tid));
                }
            } else {
                assert(!thread_named(threads@, tid));
            }
        }
        proof {
            assert(classes@[i as int] == (tid, class));
            lemma_cover_step(before_step, out@, classes@, threads@, i as int);
        }
        i += 1;
    }
    // number the workers in order
    let mut k: usize = 0;
    while k < out.len()
        invariant
            k <= out.len(),
            forall|a: int| 0 <= a < k ==> (#[trigger] out@[a]).worker_id == a as u32,
            tids_increasing(out@),
            entries_backed(out@, classes@, threads@),
            covers_workers(out@, classes@, threads@, classes@.len() as int),
        decreases out.len() - k,
    {
        let ghost old_out = out@;
        let mut w = out.remove(k);
        w.worker_id = k as u32;
        out.insert(k, w);
        proof {
            let no = out@;
            assert(no =~= old_out.update(k as int, w));
            assert forall|q: int| 0 <= q < no.len() implies listed(classes@, (#[trigger] no[q]).tid.0, ThreadClass::Worker)
                && exists|j: int| 0 <= j < threads@.len() && threads@[j].0 == no[q].tid.0 && threads@[j].1@ == no[q].comm@ by {
                assert(no[q].tid == old_out[q].tid && no[q].comm == old_out[q].comm);
            }
            assert(tids_increasing(no)) by {
                assert forall|a: int, b: int| 0 <= a < b < no.len() implies #[trigger] no[a].tid.0 < #[trigger] no[b].tid.0 by {
                    assert(no[a].tid == old_out[a].tid && no[b].tid == old_out[b].tid);
                }
            }
            assert forall|q: int|
                0 <= q < classes@.len() && (#[trigger] classes@[q]).1 == ThreadClass::Worker && thread_named(threads@, classes@[q].0)
                    implies has_tid(no, classes@[q].0) by {
                let t = classes@[q].0;
                let m = choose|m: int| 0 <= m < old_out.len() && #[trigger] old_out[m].tid.0 == t;
                assert(no[m].tid.0 == t);
            }
        }
        k += 1;
    }
    out
}

// =============================================================================
// SAMPLED STACKS
// =============================================================================

/// The class of a stack from what was found at its addresses (`None` for
/// an address outside the executable or one without a name).
pub open spec fn class_of_found(found: Seq<Option<String>>) -> ThreadClass {
    if exists|i: int| 0 <= i < found.len() && (#[trigger] found[i] matches Some(n) && contains_seq(n@, worker_marker())) {
        ThreadClass::Worker
    } else if exists|i: int| 0 <= i < found.len() && (#[trigger] found[i] matches Some(n) && is_prefix(blocking_marker(), n@)) {
        ThreadClass::BlockingPool
    } else {
        ThreadClass::Unknown
    }
}

/// `found` holds, for each address of `ips` before the first null one, the
/// name `resolve_name` gave for its file offset when it lies in the
/// executable, and `None` outside it.
pub open spec fn names_found<F: Fn(u64) -> Option<String>>(
    ips: Seq<u64>,
    memory_range: Option<MemoryRange>,
    resolve_name: F,
    found: Seq<Option<String>>,
) -> bool {
    &&& found.len() <= ips.len()
    &&& forall|k: int| 0 <= k < found.len() ==> ips[k] != 0
    &&& found.len() < ips.len() ==> ips[found.len() as int] == 0
    &&& forall|k: int| 0 <= k < found.len() ==> ({
        let (offset, in_executable) = adjusted(memory_range, ips[k]);
        if in_executable {
            call_ensures(resolve_name, (offset,), #[trigger] found[k])
        } else {
            found[k] is None
        }
    })
}

/// Classifies the stack `stack_id` of a sampled thread: its addresses are
/// fetched with `fetch_ips` (`None` when the kernel no longer has them), and
/// the name of the innermost function at each address of the executable is
/// found with `resolve_name`. A negative id or a missing stack is unknown.
pub fn classify_thread_stack<G: FnOnce() -> Option<Vec<u64>>, F: Fn(u64) -> Option<String>>(
    stack_id: i64,
    fetch_ips: G,
    memory_range: Option<MemoryRange>,
    resolve_name: &F,
) -> (r: ThreadClass)
    requires
        call_requires(fetch_ips, ()),
        forall|a: u64| call_requires(*resolve_name, (a,)),
    ensures
        stack_id < 0 ==> r == ThreadClass::Unknown,
        stack_id >= 0 ==> exists|ips: Option<Vec<u64>>| #[trigger] call_ensures(fetch_ips, (), ips) && match ips {
            None => r == ThreadClass::Unknown,
            Some(v) => exists|found: Seq<Option<String>>|
                names_found(v@, memory_range, *resolve_name, found) && r == #[trigger] class_of_found(found),
        },
{
    if stack_id < 0 {
        return ThreadClass::Unknown;
    }
    let ips = fetch_ips();
    let ghost fetched = ips;
    let v = match ips {
        None => {
            return ThreadClass::Unknown;
        },
        Some(v) => v,
    };
    let w = chars_of("scheduler::multi_thread::worker");
    let b = chars_of("tokio::runtime::blocking::pool::Inner::run");
    let mut has_worker = false;
    let mut has_blocking = false;
    let ghost mut found: Seq<Option<String>> = seq![];
    let mut i: usize = 0;
    while i < v.len() && v[i] != 0
        invariant
            i <= v.len(),
            found.len() == i,
            w@ == worker_marker(),
            b@ == blocking_marker(),
            forall|a: u64| call_requires(*resolve_name, (a,)),
            forall|k: int| 0 <= k < i ==> v@[k] != 0,
            forall|k: int| 0 <= k < i ==> ({
                let (offset, in_executable) = adjusted(memory_range, v@[k]);
                if in_executable {
                    call_ensures(*resolve_name, (offset,), #[trigger] found[k])
                } else {
                    found[k] is None
                }
            }),
            has_worker <==> exists|k: int| 0 <= k < i && (#[trigger] found[k] matches Some(n) && contains_seq(n@, worker_marker())),
            has_blocking <==> exists|k: int| 0 <= k < i && (#[trigger] found[k] matches Some(n) && is_prefix(blocking_marker(), n@)),
        decreases v.len() - i,
    {
        let (offset, in_executable) = adjust_address(memory_range, v[i]);
        let ghost old_found = found;
        let ghost old_worker = has_worker;
        let ghost old_blocking = has_blocking;
        if in_executable {
            let name = resolve_name(offset);
            let mut is_worker = false;
            let mut is_blocking = false;
            if let Some(n) = &name {
                let f = chars_of(n.as_str());
                is_worker = contains_chars(f.as_slice(), w.as_slice());
                is_blocking = starts_with_chars(f.as_slice(), b.as_slice());
            }
            assert(is_worker <==> (name matches Some(n) && contains_seq(n@, worker_marker())));
            assert(is_blocking <==> (name matches Some(n) && is_prefix(blocking_marker(), n@)));
            has_worker = has_worker || is_worker;
            has_blocking = has_blocking || is_blocking;
            proof {
                found = found.push(name);
                assert(found[i as int] == name);
            }
        } else {
            proof {
                found = found.push(None);
                assert(found[i as int] is None);
            }
        }
        proof {
            assert forall|k: int| 0 <= k < i implies found[k] == old_found[k] by {}
            if has_worker && !old_worker {
                assert(found[i as int] matches Some(n) && contains_seq(n@, worker_marker()));
            }
            if !has_worker {
                assert forall|k: int| 0 <= k < i + 1 implies !(#[trigger] found[k] matches Some(n) && contains_seq(n@, worker_marker())) by {
                    if k < i {
                        assert(found[k] == old_found[k]);
                    }
                }
            }
            if has_worker && old_worker {
                let k = choose|k: int| 0 <= k < i && (#[trigger] old_found[k] matches Some(n) && contains_seq(n@, worker_marker()));
                assert(found[k] == old_found[k]);
            }
            if has_blocking && !old_blocking {
                assert(found[i as int] matches Some(n) && is_prefix(blocking_marker(), n@));
            }
            if !has_blocking {
                assert forall|k: int| 0 <= k < i + 1 implies !(#[trigger] found[k] matches Some(n) && is_prefix(blocking_marker(), n@)) by {
                    if k < i {
                        assert(found[k] == old_found[k]);
                    }
                }
            }
            if has_blocking && old_blocking {
                let k = choose|k: int| 0 <= k < i && (#[trigger] old_found[k] matches Some(n) && is_prefix(blocking_marker(), n@));
                assert(found[k] == old_found[k]);
            }
        }
        i += 1;
    }
    let r = if has_worker {
        ThreadClass::Worker
    } else if has_blocking {
        ThreadClass::BlockingPool
    } else {
        ThreadClass::Unknown
    };
    proof {
        assert(fetched == Some(v));
        assert(names_found(v@, memory_range, *resolve_name, found));
        assert(call_ensures(fetch_ips, (), fetched));
        assert(class_of_found(found) == r);
    }
    r
}

/// The class of each stack seen, and of each thread sampled, while workers
/// are discovered from stacks.
pub struct StackSampler {
    stack_classes: Vec<(i64, ThreadClass)>,
    tid_classes: Vec<(u32, ThreadClass)>,
}

/// The latest class recorded for `key` in `entries`.
pub open spec fn class_in<K>(entries: Seq<(K, ThreadClass)>, key: K) -> Option<ThreadClass>
    decreases entries.len(),
{
    if entries.len() == 0 {
        None
    } else if entries.last().0 == key {
        Some(entries.last().1)
    } else {
        class_in(entries.drop_last(), key)
    }
}

/// No key occurs twice.
pub open spec fn distinct_keys<K>(entries: Seq<(K, ThreadClass)>) -> bool {
    forall|a: int, b: int| 0 <= a < b < entries.len() ==> #[trigger] entries[a].0 != #[trigger] entries[b].0
}

proof fn lemma_class_in_distinct<K>(entries: Seq<(K, ThreadClass)>, k: int)
    requires
        distinct_keys(entries),
        0 <= k < entries.len(),
    ensures
        class_in(entries, entries[k].0) == Some(entries[k].1),
    decreases entries.len(),
{
    if k < entries.len() - 1 {
        let pre = entries.drop_last();
        assert(pre[k] == entries[k]);
        assert(entries.last().0 != entries[k].0);
        lemma_class_in_distinct(pre, k);
    }
}

proof fn lemma_class_in_absent<K>(entries: Seq<(K, ThreadClass)>, key: K)
    requires
        forall|a: int| 0 <= a < entries.len() ==> (#[trigger] entries[a]).0 != key,
    ensures
        class_in(entries, key) is None,
    decreases entries.len(),
{
    if entries.len() > 0 {
        let pre = entries.drop_last();
        assert forall|a: int| 0 <= a < pre.len() implies (#[trigger] pre[a]).0 != key by {
            assert(pre[a] == entries[a]);
        }
        lemma_class_in_absent(pre, key);
    }
}

proof fn lemma_class_in_update<K>(entries: Seq<(K, ThreadClass)>, k: int, c: ThreadClass, key: K)
    requires
        distinct_keys(entries),
        0 <= k < entries.len(),
    ensures
        distinct_keys(entries.update(k, (entries[k].0, c))),
        class_in(entries.update(k, (entries[k].0, c)), key) == if key == entries[k].0 {
            Some(c)
        } else {
            class_in(entries, key)
        },
{
    let ne = entries.update(k, (entries[k].0, c));
    assert(distinct_keys(ne)) by {
        assert forall|a: int, b: int| 0 <= a < b < ne.len() implies #[trigger] ne[a].0 != #[trigger] ne[b].0 by {
            assert(ne[a].0 == entries[a].0 && ne[b].0 == entries[b].0);
        }
    }
    if key == entries[k].0 {
        lemma_class_in_distinct(ne, k);
    } else if exists|a: int| 0 <= a < entries.len() && entries[a].0 == key {
        let a = choose|a: int| 0 <= a < entries.len() && entries[a].0 == key;
        lemma_class_in_distinct(entries, a);
        lemma_class_in_distinct(ne, a);
    } else {
        lemma_class_in_absent(entries, key);
        assert forall|a: int| 0 <= a < ne.len() implies (#[trigger] ne[a]).0 != key by {
            assert(ne[a].0 == entries[a].0);
        }
        lemma_class_in_absent(ne, key);
    }
}

impl StackSampler {
    /// The class recorded for each stack id.
    pub closed spec fn stack_class(&self, stack_id: i64) -> Option<ThreadClass> {
        class_in(self.stack_classes@, stack_id)
    }

    /// The class recorded for each thread id.
    pub closed spec fn thread_class(&self, tid: u32) -> Option<ThreadClass> {
        class_in(self.tid_classes@, tid)
    }

    /// The sampler's invariant: each thread is listed once.
    pub closed spec fn wf(&self) -> bool {
        distinct_keys(self.tid_classes@)
    }

    /// Nothing sampled yet.
    pub fn new() -> (r: Self)
        ensures
            r.wf(),
            forall|s: i64| r.stack_class(s) is None,
            forall|t: u32| r.thread_class(t) is None,
    {
        StackSampler { stack_classes: Vec::new(), tid_classes: Vec::new() }
    }

    /// The class of a stack: the recorded one, else the one `classify`
    /// gives, which is then recorded.
    pub fn stack_class_with<G: FnOnce() -> ThreadClass>(&mut self, stack_id: i64, classify: G) -> (r: ThreadClass)
        requires
            call_requires(classify, ()),
        ensures
            final(self).wf() == old(self).wf(),
            forall|t: u32| final(self).thread_class(t) == old(self).thread_class(t),
            match old(self).stack_class(stack_id) {
                Some(c) => r == c && forall|s: i64| final(self).stack_class(s) == old(self).stack_class(s),
                None => call_ensures(classify, (), r) && forall|s: i64|
                    #[trigger] final(self).stack_class(s) == if s == stack_id {
                        Some(r)
                    } else {
                        old(self).stack_class(s)
                    },
            },
    {
        let mut k: usize = self.stack_classes.len();
        while k > 0
            invariant
                k <= self.stack_classes.len(),
                forall|j: int| k <= j < self.stack_classes@.len() ==> (#[trigger] self.stack_classes@[j]).0 != stack_id,
            decreases k,
        {
            if self.stack_classes[k - 1].0 == stack_id {
                proof {
                    lemma_class_in_suffix(self.stack_classes@, stack_id, k as int);
                    assert(self.stack_classes@.subrange(0, k as int).last() == self.stack_classes@[k - 1]);
                }
                return self.stack_classes[k - 1].1;
            }
            k -= 1;
        }
        proof {
            lemma_class_in_suffix(self.stack_classes@, stack_id, 0);
        }
        let c = classify();
        let ghost old_entries = self.stack_classes@;
        self.stack_classes.push((stack_id, c));
        proof {
            let ne = self.stack_classes@;
            assert(ne.drop_last() =~= old_entries);
            assert forall|s: i64| #[trigger] class_in(ne, s) == if s == stack_id {
                Some(c)
            } else {
                class_in(old_entries, s)
            } by {
                assert(ne.drop_last() =~= old_entries);
            }
        }
        c
    }

    /// Records that thread `tid` was seen with a stack of class `class`:
    /// the thread keeps the higher ranked of its classes.
    pub fn record_thread(&mut self, tid: u32, class: ThreadClass)
        requires
            old(self).wf(),
        ensures
            final(self).wf(),
            forall|s: i64| final(self).stack_class(s) == old(self).stack_class(s),
            forall|t: u32| #[trigger] final(self).thread_class(t) == if t == tid {
                Some(
                    match old(self).thread_class(tid) {
                        Some(e) => upgraded(e, class),
                        None => class,
                    },
                )
            } else {
                old(self).thread_class(t)
            },
    {
        let mut k: usize = 0;
        while k < self.tid_classes.len()
            invariant
                k <= self.tid_classes.len(),
                self.tid_classes@ == old(self).tid_classes@,
                self.stack_classes@ == old(self).stack_classes@,
                distinct_keys(self.tid_classes@),
                forall|j: int| 0 <= j < k ==> (#[trigger] self.tid_classes@[j]).0 != tid,
            decreases self.tid_classes.len() - k,
        {
            if self.tid_classes[k].0 == tid {
                let existing = self.tid_classes[k].1;
                let nc = upgrade_class(existing, class);
                let ghost old_entries = self.tid_classes@;
                proof {
                    lemma_class_in_distinct(old_entries, k as int);
                }
                self.tid_classes.set(k, (tid, nc));
                proof {
                    assert(self.tid_classes@ == old_entries.update(k as int, (old_entries[k as int].0, nc)));
                    assert forall|t: u32| #[trigger] class_in(self.tid_classes@, t) == if t == tid {
                        Some(nc)
                    } else {
                        class_in(old_entries, t)
                    } by {
                        lemma_class_in_update(old_entries, k as int, nc, t);
                    }
                    lemma_class_in_update(old_entries, k as int, nc, tid);
                }
                return;
            }
            k += 1;
        }
        let ghost old_entries = self.tid_classes@;
        proof {
            lemma_class_in_absent(old_entries, tid);
        }
        self.tid_classes.push((tid, class));
        proof {
            let ne = self.tid_classes@;
            assert(ne.drop_last() =~= old_entries);
            assert(distinct_keys(ne)) by {
                assert forall|a: int, b: int| 0 <= a < b < ne.len() implies #[trigger] ne[a].0 != #[trigger] ne[b].0 by {
                    if b == ne.len() - 1 {
                        assert(ne[a] == old_entries[a]);
                    } else {
                        assert(ne[a] == old_entries[a] && ne[b] == old_entries[b]);
                    }
                }
            }
            assert forall|t: u32| #[trigger] class_in(ne, t) == if t == tid {
                Some(class)
            } else {
                class_in(old_entries, t)
            } by {
                assert(ne.drop_last() =~= old_entries);
            }
        }
    }

    /// The threads sampled with their classes, each thread once.
    pub fn thread_classes(&self) -> (r: &Vec<(u32, ThreadClass)>)
        requires
            self.wf(),
        ensures
            distinct_keys(r@),
            forall|t: u32| #[trigger] class_in(r@, t) == self.thread_class(t),
    {
        &self.tid_classes
    }
}

proof fn lemma_class_in_suffix<K>(entries: Seq<(K, ThreadClass)>, key: K, k: int)
    requires
        0 <= k <= entries.len(),
        forall|j: int| k <= j < entries.len() ==> (#[trigger] entries[j]).0 != key,
    ensures
        class_in(entries, key) == class_in(entries.subrange(0, k), key),
    decreases entries.len() - k,
{
    if k < entries.len() {
        let pre = entries.drop_last();
        assert(entries.last() == entries[entries.len() - 1]);
        lemma_class_in_suffix(pre, key, k);
        assert(pre.subrange(0, k) =~= entries.subrange(0, k));
    } else {
        assert(entries.subrange(0, k) =~= entries);
    }
}

} // verus!
