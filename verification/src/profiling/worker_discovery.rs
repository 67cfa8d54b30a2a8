//! Finding the Tokio worker threads of a process by their names.
//!
//! Workers are the threads whose name starts with a prefix: the one given,
//! or `tokio-runtime-w` (Tokio's `tokio-runtime-worker-{N}` cut to the
//! fifteen characters the kernel keeps). Without a given prefix, when the
//! default matches nothing, the largest group of at least two threads sharing
//! a base name (the name without a trailing `-{digits}`) is taken. The thread
//! list (`tid`, name) is read by the caller from `/proc/<pid>/task`.
use crate::domain::types::Tid;
use crate::process_lookup::{last_index_of, lemma_last_index, lemma_last_index_exists};
use crate::text::{
    views, all_digits, chars_eq, chars_of, dec_string, is_digit, is_prefix, push_chars, push_dec,
    push_str, rfind_char, slice_chars, starts_with_chars, str_eq, string_from_chars,
};
use vstd::prelude::*;

verus! {

/// Default thread name prefix for standard Tokio runtimes.
pub const DEFAULT_PREFIX: &'static str = "tokio-runtime-w";

/// Minimum number of threads in a group to count as a worker pool.
pub const MIN_POOL_SIZE: usize = 2;

/// Maximum number of thread names listed in the failure report.
pub const MAX_DISPLAY_NAMES: usize = 10;

/// A discovered Tokio worker thread.
pub struct WorkerInfo {
    /// OS thread id.
    pub tid: Tid,
    /// Zero-based index assigned during discovery (not the kernel tid).
    pub worker_id: u32,
    /// Thread name as read from `/proc/<pid>/task/<tid>/comm`.
    pub comm: String,
}

/// The outcome of a worker search: the workers found, and when none were,
/// the diagnostic lines to show the user.
pub struct WorkerSearch {
    /// Workers in discovery order.
    pub workers: Vec<WorkerInfo>,
    /// Diagnostic lines, empty when workers were found.
    pub report: Vec<String>,
}

// =============================================================================
// SPECIFICATION
// =============================================================================

/// Thread ids and names.
pub open spec fn threads_view(t: Seq<(u32, String)>) -> Seq<(u32, Seq<char>)> {
    Seq::new(t.len(), |i: int| (t[i].0, t[i].1@))
}

/// Tid, worker id and name of each worker.
pub open spec fn workers_view(w: Seq<WorkerInfo>) -> Seq<(u32, u32, Seq<char>)> {
    Seq::new(w.len(), |i: int| (w[i].tid.0, w[i].worker_id, w[i].comm@))
}

/// The threads whose name starts with `prefix`, in order, numbered from 0.
pub open spec fn collected(ts: Seq<(u32, Seq<char>)>, prefix: Seq<char>) -> Seq<(u32, u32, Seq<char>)>
    decreases ts.len(),
{
    if ts.len() == 0 {
        seq![]
    } else {
        let before = collected(ts.drop_last(), prefix);
        let (tid, comm) = ts.last();
        if is_prefix(prefix, comm) {
            before.push((tid, before.len() as u32, comm))
        } else {
            before
        }
    }
}

/// The name without a trailing `-{digits}` suffix, when it has one.
pub open spec fn strip_suffix_spec(name: Seq<char>) -> Option<Seq<char>> {
    match last_index_of(name, '-') {
        Some(j) => {
            let suffix = name.subrange(j + 1, name.len() as int);
            if suffix.len() > 0 && all_digits(suffix) {
                Some(name.subrange(0, j))
            } else {
                None
            }
        },
        None => None,
    }
}

/// The group a thread name belongs to.
pub open spec fn base_name(name: Seq<char>) -> Seq<char> {
    match strip_suffix_spec(name) {
        Some(b) => b,
        None => name,
    }
}

/// The base names of the threads, in order.
pub open spec fn base_names(ts: Seq<(u32, Seq<char>)>) -> Seq<Seq<char>> {
    Seq::new(ts.len(), |i: int| base_name(ts[i].1))
}

/// The thread names, in order.
pub open spec fn names_of(ts: Seq<(u32, Seq<char>)>) -> Seq<Seq<char>> {
    Seq::new(ts.len(), |i: int| ts[i].1)
}

/// How many times `b` occurs in `bs`.
pub open spec fn count_of(bs: Seq<Seq<char>>, b: Seq<char>) -> nat
    decreases bs.len(),
{
    if bs.len() == 0 {
        0
    } else {
        count_of(bs.drop_last(), b) + if bs.last() == b {
            1nat
        } else {
            0nat
        }
    }
}

/// `p` is the base name of a largest group, and that group has at least
/// two threads.
pub open spec fn is_largest_group(bs: Seq<Seq<char>>, p: Seq<char>) -> bool {
    &&& bs.contains(p)
    &&& count_of(bs, p) >= MIN_POOL_SIZE
    &&& forall|i: int| 0 <= i < bs.len() ==> count_of(bs, #[trigger] bs[i]) <= count_of(bs, p)
}

/// `p` is the first name of `bs` whose group is as large as its group: every
/// name before its first occurrence has a smaller group.
pub open spec fn first_of_its_size(bs: Seq<Seq<char>>, p: Seq<char>) -> bool {
    exists|i: int| 0 <= i < bs.len() && bs[i] == p && forall|j: int| 0 <= j < i ==> count_of(bs, #[trigger] bs[j]) < count_of(bs, p)
}

/// No group has at least two threads.
pub open spec fn no_pool(bs: Seq<Seq<char>>) -> bool {
    forall|i: int| 0 <= i < bs.len() ==> count_of(bs, #[trigger] bs[i]) < MIN_POOL_SIZE
}

/// `a` sorts before `b` (code point order, a proper prefix first).
pub open spec fn lex_lt(a: Seq<char>, b: Seq<char>) -> bool
    decreases a.len(),
{
    if a.len() == 0 {
        b.len() > 0
    } else if b.len() == 0 {
        false
    } else if a[0] != b[0] {
        a[0] < b[0]
    } else {
        lex_lt(a.drop_first(), b.drop_first())
    }
}

/// Strictly increasing.
pub open spec fn strictly_sorted(s: Seq<Seq<char>>) -> bool {
    forall|i: int, j: int| 0 <= i < j < s.len() ==> lex_lt(#[trigger] s[i], #[trigger] s[j])
}

/// `items` joined with `sep`.
pub open spec fn joined(items: Seq<Seq<char>>, sep: Seq<char>) -> Seq<char>
    decreases items.len(),
{
    if items.len() == 0 {
        seq![]
    } else if items.len() == 1 {
        items[0]
    } else {
        joined(items.drop_last(), sep) + sep + items.last()
    }
}

/// The list of names in the report: all of them, or the first ten and how
/// many more there are.
pub open spec fn names_display(names: Seq<Seq<char>>) -> Seq<char> {
    if names.len() > MAX_DISPLAY_NAMES {
        joined(names.subrange(0, MAX_DISPLAY_NAMES as int), ", "@) + ", ... ("@ + dec_string(
            (names.len() - MAX_DISPLAY_NAMES) as nat,
        ) + " more)"@
    } else {
        joined(names, ", "@)
    }
}

/// The hint line of the report.
pub open spec fn hint_line(searched: Seq<char>, discovered: Option<Seq<char>>) -> Seq<char> {
    match discovered {
        Some(hint) => if hint != searched {
            "Hint: try --workers "@ + hint
        } else {
            "If your Tokio runtime uses custom thread names, pass --workers <prefix>."@
        },
        None => "If your Tokio runtime uses custom thread names, pass --workers <prefix>."@,
    }
}

/// The first line of the report, given the sorted distinct names.
pub open spec fn summary_line(searched: Seq<char>, thread_count: nat, names: Seq<Seq<char>>) -> Seq<
    char,
> {
    "No workers found matching prefix \""@ + searched + "\". Found "@ + dec_string(thread_count)
        + " threads: ["@ + names_display(names) + "]"@
}

/// `r` is the failure report for a search of `searched` among `threads`,
/// where discovery suggested `discovered`.
pub open spec fn failure_report(
    threads: Seq<(u32, Seq<char>)>,
    searched: Seq<char>,
    discovered: Option<Seq<char>>,
    r: Seq<String>,
) -> bool {
    &&& r.len() == 2
    &&& exists|names: Seq<Seq<char>>|
        #![trigger strictly_sorted(names)]
        strictly_sorted(names) && (forall|n: Seq<char>|
            #[trigger] names.contains(n) <==> names_of(threads).contains(n))
            && r[0]@ == summary_line(searched, threads.len(), names)
    &&& r[1]@ == hint_line(searched, discovered)
}

/// `r` is the failure report for a search of `searched`, with the hint of
/// what discovery found: nothing when no group has two threads, else the
/// base name of a largest group.
pub open spec fn reported_failure(ts: Seq<(u32, Seq<char>)>, searched: Seq<char>, r: Seq<String>) -> bool {
    exists|disc: Option<Seq<char>>|
        (disc is None <==> no_pool(base_names(ts))) && (disc matches Some(d) ==> is_largest_group(
            base_names(ts),
            d,
        )) && #[trigger] failure_report(ts, searched, disc, r)
}

// =============================================================================
// LEMMAS
// =============================================================================

proof fn lemma_lex_irreflexive(a: Seq<char>)
    ensures
        !lex_lt(a, a),
    decreases a.len(),
{
    if a.len() > 0 {
        lemma_lex_irreflexive(a.drop_first());
    }
}

proof fn lemma_lex_total(a: Seq<char>, b: Seq<char>)
    requires
        a != b,
    ensures
        lex_lt(a, b) || lex_lt(b, a),
    decreases a.len(),
{
    if a.len() > 0 && b.len() > 0 && a[0] == b[0] {
        if a.drop_first() == b.drop_first() {
            assert(a =~= seq![a[0]] + a.drop_first());
            assert(b =~= seq![b[0]] + b.drop_first());
        }
        lemma_lex_total(a.drop_first(), b.drop_first());
    }
    if a.len() == 0 && b.len() == 0 {
        assert(a =~= b);
    }
}

proof fn lemma_lex_skip(a: Seq<char>, b: Seq<char>, i: int)
    requires
        0 <= i <= a.len(),
        i <= b.len(),
        a.subrange(0, i) == b.subrange(0, i),
    ensures
        lex_lt(a, b) == lex_lt(a.subrange(i, a.len() as int), b.subrange(i, b.len() as int)),
    decreases i,
{
    if i == 0 {
        assert(a.subrange(0, a.len() as int) =~= a);
        assert(b.subrange(0, b.len() as int) =~= b);
    } else {
        assert(a[0] == a.subrange(0, i)[0]);
        assert(b[0] == b.subrange(0, i)[0]);
        let a1 = a.drop_first();
        let b1 = b.drop_first();
        assert(a1.subrange(0, i - 1) =~= a.subrange(0, i).drop_first());
        assert(b1.subrange(0, i - 1) =~= b.subrange(0, i).drop_first());
        lemma_lex_skip(a1, b1, i - 1);
        assert(a1.subrange(i - 1, a1.len() as int) =~= a.subrange(i, a.len() as int));
        assert(b1.subrange(i - 1, b1.len() as int) =~= b.subrange(i, b.len() as int));
    }
}

proof fn lemma_count_prefix_step(bs: Seq<Seq<char>>, b: Seq<char>, j: int)
    requires
        0 <= j < bs.len(),
    ensures
        count_of(bs.subrange(0, j + 1), b) == count_of(bs.subrange(0, j), b) + if bs[j] == b {
            1nat
        } else {
            0nat
        },
{
    assert(bs.subrange(0, j + 1).drop_last() =~= bs.subrange(0, j));
}

proof fn lemma_count_contains(bs: Seq<Seq<char>>, i: int)
    requires
        0 <= i < bs.len(),
    ensures
        count_of(bs, bs[i]) >= 1,
    decreases bs.len(),
{
    if i < bs.len() - 1 {
        lemma_count_contains(bs.drop_last(), i);
    }
}

proof fn lemma_base_is_prefix(name: Seq<char>)
    ensures
        is_prefix(base_name(name), name),
{
    match strip_suffix_spec(name) {
        Some(b) => {
            lemma_last_index_exists(name, '-');
            assert(name.subrange(0, b.len() as int) =~= b);
        },
        None => {
            assert(name.subrange(0, name.len() as int) =~= name);
        },
    }
}

proof fn lemma_collected_nonempty(ts: Seq<(u32, Seq<char>)>, prefix: Seq<char>, i: int)
    requires
        0 <= i < ts.len(),
        is_prefix(prefix, ts[i].1),
    ensures
        collected(ts, prefix).len() > 0,
    decreases ts.len(),
{
    if i < ts.len() - 1 {
        lemma_collected_nonempty(ts.drop_last(), prefix, i);
        let before = collected(ts.drop_last(), prefix);
        assert(collected(ts, prefix).len() >= before.len());
    }
}

/// The threads of a largest group are found by its base name.
proof fn lemma_largest_group_found(ts: Seq<(u32, Seq<char>)>, d: Seq<char>)
    requires
        is_largest_group(base_names(ts), d),
    ensures
        collected(ts, d).len() > 0,
{
    let bs = base_names(ts);
    let i = choose|i: int| 0 <= i < bs.len() && bs[i] == d;
    lemma_base_is_prefix(ts[i].1);
    lemma_collected_nonempty(ts, d, i);
}

// =============================================================================
// IMPLEMENTATION
// =============================================================================

/// The threads whose name starts with `prefix`, numbered 0, 1, 2, ... in the
/// order they are listed.
pub fn collect_workers(threads: &[(u32, String)], prefix: &str) -> (r: Vec<WorkerInfo>)
    ensures
        workers_view(r@) == collected(threads_view(threads@), prefix@),
{
    let p = chars_of(prefix);
    let ghost ts = threads_view(threads@);
    let mut out: Vec<WorkerInfo> = Vec::new();
    let mut i: usize = 0;
    while i < threads.len()
        invariant
            i <= threads.len(),
            p@ == prefix@,
            ts == threads_view(threads@),
            workers_view(out@) == collected(ts.subrange(0, i as int), prefix@),
        decreases threads.len() - i,
    {
        let ghost pre = ts.subrange(0, i as int);
        let ghost next = ts.subrange(0, i + 1);
        assert(next.drop_last() =~= pre);
        assert(next.last() == ts[i as int]);
        let comm = chars_of(threads[i].1.as_str());
        if starts_with_chars(comm.as_slice(), p.as_slice()) {
            let ghost before = out@;
            let id = out.len() as u32;
            out.push(WorkerInfo { tid: Tid(threads[i].0), worker_id: id, comm: threads[i].1.clone() });
            assert(workers_view(out@) =~= workers_view(before).push(
                (threads@[i as int].0, id, threads@[i as int].1@),
            ));
        }
        i += 1;
    }
    assert(ts.subrange(0, threads.len() as int) =~= ts);
    out
}

/// The name without a trailing `-{digits}` suffix; `None` when there is no
/// `-`, or what follows the last `-` is empty or not all ASCII digits.
#[verifier::loop_isolation(false)]
pub fn strip_numeric_suffix(name: &str) -> (r: Option<String>)
    ensures
        match r {
            Some(b) => strip_suffix_spec(name@) == Some(b@),
            None => strip_suffix_spec(name@) is None,
        },
{
    let s = chars_of(name);
    let dash = match rfind_char(s.as_slice(), '-') {
        Some(j) => j,
        None => {
            return None;
        },
    };
    proof {
        lemma_last_index(s@, '-', dash as int);
    }
    let suffix = slice_chars(s.as_slice(), dash + 1, s.len());
    if suffix.len() == 0 {
        return None;
    }
    let mut k: usize = 0;
    while k < suffix.len()
        invariant
            k <= suffix.len(),
            forall|j: int| 0 <= j < k ==> is_digit(#[trigger] suffix@[j]),
        decreases suffix.len() - k,
    {
        if !('0' <= suffix[k] && suffix[k] <= '9') {
            assert(suffix@ =~= name@.subrange(dash + 1, name@.len() as int));
            assert(!is_digit(suffix@[k as int]));
            return None;
        }
        k += 1;
    }
    let base = slice_chars(s.as_slice(), 0, dash);
    Some(string_from_chars(base.as_slice()))
}

/// The base name of a thread: its name without a trailing `-{digits}`.
fn base_of(name: &str) -> (r: Vec<char>)
    ensures
        r@ == base_name(name@),
{
    match strip_numeric_suffix(name) {
        Some(b) => chars_of(b.as_str()),
        None => chars_of(name),
    }
}

/// How many times `b` occurs in `bs`.
fn count_in(bs: &Vec<Vec<char>>, b: &Vec<char>) -> (r: usize)
    ensures
        r == count_of(views(bs@), b@),
{
    let ghost v = views(bs@);
    let mut c: usize = 0;
    let mut j: usize = 0;
    while j < bs.len()
        invariant
            j <= bs.len(),
            v == views(bs@),
            c == count_of(v.subrange(0, j as int), b@),
            c <= j,
        decreases bs.len() - j,
    {
        proof {
            lemma_count_prefix_step(v, b@, j as int);
        }
        if chars_eq(bs[j].as_slice(), b.as_slice()) {
            c += 1;
        }
        j += 1;
    }
    assert(v.subrange(0, bs.len() as int) =~= v);
    c
}

/// The base name of the largest group of at least two threads sharing one,
/// or `None` when every group is smaller. Among groups of equal size the
/// one seen first is taken.
pub fn discover_worker_prefix(threads: &[(u32, String)]) -> (r: Option<String>)
    ensures
        match r {
            Some(p) => is_largest_group(base_names(threads_view(threads@)), p@) && first_of_its_size(
                base_names(threads_view(threads@)),
                p@,
            ),
            None => no_pool(base_names(threads_view(threads@))),
        },
{
    let ghost bs = base_names(threads_view(threads@));
    let mut bases: Vec<Vec<char>> = Vec::new();
    let mut i: usize = 0;
    while i < threads.len()
        invariant
            i <= threads.len(),
            bs == base_names(threads_view(threads@)),
            bases@.len() == i,
            forall|j: int| 0 <= j < i ==> #[trigger] bases@[j]@ == bs[j],
        decreases threads.len() - i,
    {
        let b = base_of(threads[i].1.as_str());
        bases.push(b);
        i += 1;
    }
    let ghost v = views(bases@);
    assert(v =~= bs);
    let mut best: Option<(usize, usize)> = None;
    let mut k: usize = 0;
    while k < bases.len()
        invariant
            k <= bases.len(),
            v == views(bases@),
            v == bs,
            match best {
                None => forall|j: int| 0 <= j < k ==> count_of(bs, #[trigger] bs[j]) < MIN_POOL_SIZE,
                Some((idx, cnt)) => idx < k && cnt == count_of(bs, bs[idx as int]) && cnt
                    >= MIN_POOL_SIZE && (forall|j: int|
                    0 <= j < k ==> count_of(bs, #[trigger] bs[j]) <= cnt) && (forall|j: int|
                    0 <= j < idx ==> count_of(bs, #[trigger] bs[j]) < cnt),
            },
        decreases bases.len() - k,
    {
        let c = count_in(&bases, &bases[k]);
        let better = match best {
            None => c >= MIN_POOL_SIZE,
            Some((_, cnt)) => c > cnt,
        };
        if better {
            best = Some((k, c));
        }
        k += 1;
    }
    match best {
        None => None,
        Some((idx, _)) => {
            assert(bs[idx as int] == v[idx as int]);
            assert(first_of_its_size(bs, bs[idx as int]));
            Some(string_from_chars(bases[idx].as_slice()))
        },
    }
}

/// Whether `a` sorts before `b` in code point order.
fn lex_less(a: &[char], b: &[char]) -> (r: bool)
    ensures
        r == lex_lt(a@, b@),
{
    let mut i: usize = 0;
    while i < a.len() && i < b.len() && a[i] == b[i]
        invariant
            i <= a.len(),
            i <= b.len(),
            a@.subrange(0, i as int) == b@.subrange(0, i as int),
        decreases a.len() - i,
    {
        assert(a@.subrange(0, i + 1) =~= a@.subrange(0, i as int).push(a@[i as int]));
        assert(b@.subrange(0, i + 1) =~= b@.subrange(0, i as int).push(b@[i as int]));
        i += 1;
    }
    proof {
        lemma_lex_skip(a@, b@, i as int);
    }
    let ghost a1 = a@.subrange(i as int, a.len() as int);
    let ghost b1 = b@.subrange(i as int, b.len() as int);
    if i == a.len() {
        i < b.len()
    } else if i == b.len() {
        false
    } else {
        assert(a1[0] == a@[i as int]);
        assert(b1[0] == b@[i as int]);
        a[i] < b[i]
    }
}

/// Inserting `x` at a position between the smaller and the larger elements
/// keeps a sequence strictly sorted.
proof fn lemma_insert_sorted(v: Seq<Seq<char>>, p: int, x: Seq<char>)
    requires
        strictly_sorted(v),
        0 <= p <= v.len(),
        forall|j: int| 0 <= j < p ==> lex_lt(#[trigger] v[j], x),
        p < v.len() ==> lex_lt(x, v[p]),
    ensures
        strictly_sorted(v.insert(p, x)),
{
    let w = v.insert(p, x);
    assert forall|a: int, b: int| 0 <= a < b < w.len() implies lex_lt(
        #[trigger] w[a],
        #[trigger] w[b],
    ) by {
        if b < p {
            assert(w[a] == v[a] && w[b] == v[b]);
        } else if b == p {
            assert(w[a] == v[a]);
        } else if a < p {
            assert(w[a] == v[a] && w[b] == v[b - 1]);
            if b - 1 > p {
                assert(lex_lt(v[a], v[p]));
            }
        } else if a == p {
            assert(w[b] == v[b - 1]);
            if b - 1 > p {
                assert(lex_lt(v[p], v[b - 1]));
                lemma_lex_trans(x, v[p], v[b - 1]);
            }
        } else {
            assert(w[a] == v[a - 1] && w[b] == v[b - 1]);
        }
    }
}

/// The distinct thread names in increasing order.
pub fn sorted_distinct_names(threads: &[(u32, String)]) -> (r: Vec<Vec<char>>)
    ensures
        strictly_sorted(views(r@)),
        forall|n: Seq<char>|
            #[trigger] views(r@).contains(n) <==> names_of(threads_view(threads@)).contains(n),
{
    let ghost names = names_of(threads_view(threads@));
    let mut out: Vec<Vec<char>> = Vec::new();
    let mut i: usize = 0;
    while i < threads.len()
        invariant
            i <= threads.len(),
            names == names_of(threads_view(threads@)),
            names.len() == threads.len(),
            strictly_sorted(views(out@)),
            forall|n: Seq<char>|
                #[trigger] views(out@).contains(n) <==> names.subrange(0, i as int).contains(n),
        decreases threads.len() - i,
    {
        let c = chars_of(threads[i].1.as_str());
        assert(c@ == names[i as int]);
        let ghost ov = views(out@);
        let mut p: usize = 0;
        while p < out.len() && lex_less(out[p].as_slice(), c.as_slice())
            invariant
                p <= out.len(),
                ov == views(out@),
                forall|j: int| 0 <= j < p ==> lex_lt(#[trigger] ov[j], c@),
            decreases out.len() - p,
        {
            p += 1;
        }
        let present = p < out.len() && chars_eq(out[p].as_slice(), c.as_slice());
        if !present {
            proof {
                if p < out.len() {
                    assert(ov[p as int] == out@[p as int]@);
                    lemma_lex_total(ov[p as int], c@);
                }
                lemma_insert_sorted(ov, p as int, c@);
            }
            out.insert(p, c);
            assert(views(out@) =~= ov.insert(p as int, c@));
        }
        proof {
            let nv = views(out@);
            let pre = names.subrange(0, i as int);
            let next = names.subrange(0, i + 1);
            assert(next =~= pre.push(c@));
            assert forall|n: Seq<char>| #[trigger] nv.contains(n) <==> next.contains(n) by {
                if nv.contains(n) {
                    let q = choose|q: int| 0 <= q < nv.len() && nv[q] == n;
                    if present || q < p {
                        assert(ov[q] == n);
                        assert(ov.contains(n));
                        let w = choose|w: int| 0 <= w < pre.len() && pre[w] == n;
                        assert(next[w] == n);
                    } else if q == p {
                        assert(next[i as int] == n);
                    } else {
                        assert(ov[q - 1] == n);
                        assert(ov.contains(n));
                        let w = choose|w: int| 0 <= w < pre.len() && pre[w] == n;
                        assert(next[w] == n);
                    }
                }
                if next.contains(n) {
                    let w = choose|w: int| 0 <= w < next.len() && next[w] == n;
                    if w < i {
                        assert(pre[w] == n);
                        assert(pre.contains(n));
                        assert(ov.contains(n));
                        let q = choose|q: int| 0 <= q < ov.len() && ov[q] == n;
                        if present || q < p {
                            assert(nv[q] == n);
                        } else {
                            assert(nv[q + 1] == n);
                        }
                    } else if present {
                        assert(ov[p as int] == c@);
                        assert(nv[p as int] == n);
                    } else {
                        assert(nv[p as int] == n);
                    }
                }
            }
        }
        i += 1;
    }
    assert(names.subrange(0, threads.len() as int) =~= names);
    out
}

proof fn lemma_lex_trans(a: Seq<char>, b: Seq<char>, c: Seq<char>)
    requires
        lex_lt(a, b),
        lex_lt(b, c),
    ensures
        lex_lt(a, c),
    decreases a.len(),
{
    if a.len() > 0 && b.len() > 0 && c.len() > 0 && a[0] == b[0] && b[0] == c[0] {
        lemma_lex_trans(a.drop_first(), b.drop_first(), c.drop_first());
    }
}

fn push_joined(out: &mut String, items: &Vec<Vec<char>>, count: usize, sep: &str)
    requires
        count <= items.len(),
    ensures
        final(out)@ == old(out)@ + joined(
            views(items@).subrange(0, count as int),
            sep@,
        ),
{
    let ghost v = views(items@);
    let ghost start = out@;
    let mut i: usize = 0;
    while i < count
        invariant
            i <= count <= items.len(),
            v == views(items@),
            out@ == start + joined(v.subrange(0, i as int), sep@),
        decreases count - i,
    {
        let ghost before = out@;
        if i > 0 {
            push_str(out, sep);
        }
        push_chars(out, items[i].as_slice());
        proof {
            let pre = v.subrange(0, i as int);
            let next = v.subrange(0, i + 1);
            assert(next.drop_last() =~= pre);
            assert(next.last() == v[i as int]);
            if i == 0 {
                assert(out@ =~= start + joined(next, sep@));
            } else {
                assert(out@ =~= start + joined(next, sep@));
            }
        }
        i += 1;
    }
}

/// The diagnostic lines for a search that found no workers: how many
/// threads there are with their distinct names in order (at most ten
/// shown), and a suggested prefix when discovery found one other than the
/// one searched.
pub fn log_discovery_failure(
    threads: &[(u32, String)],
    searched_prefix: &str,
    discovered: Option<&str>,
) -> (r: Vec<String>)
    ensures
        failure_report(
            threads_view(threads@),
            searched_prefix@,
            match discovered {
                Some(d) => Some(d@),
                None => None,
            },
            r@,
        ),
{
    let names = sorted_distinct_names(threads);
    let ghost nv = views(names@);
    let mut line = String::new();
    push_str(&mut line, "No workers found matching prefix \"");
    push_str(&mut line, searched_prefix);
    push_str(&mut line, "\". Found ");
    push_dec(&mut line, threads.len() as u64);
    push_str(&mut line, " threads: [");
    let ghost before = line@;
    if names.len() > MAX_DISPLAY_NAMES {
        push_joined(&mut line, &names, MAX_DISPLAY_NAMES, ", ");
        push_str(&mut line, ", ... (");
        push_dec(&mut line, (names.len() - MAX_DISPLAY_NAMES) as u64);
        push_str(&mut line, " more)");
    } else {
        push_joined(&mut line, &names, names.len(), ", ");
        assert(nv.subrange(0, names.len() as int) =~= nv);
    }
    assert(line@ == before + names_display(nv));
    push_str(&mut line, "]");
    let mut hint = String::new();
    match discovered {
        Some(h) => {
            if !str_eq(h, searched_prefix) {
                push_str(&mut hint, "Hint: try --workers ");
                push_str(&mut hint, h);
            } else {
                push_str(
                    &mut hint,
                    "If your Tokio runtime uses custom thread names, pass --workers <prefix>.",
                );
            }
        },
        None => {
            push_str(
                &mut hint,
                "If your Tokio runtime uses custom thread names, pass --workers <prefix>.",
            );
        },
    }
    let mut r: Vec<String> = Vec::new();
    r.push(line);
    r.push(hint);
    assert(strictly_sorted(nv));
    assert(threads_view(threads@).len() == threads@.len());
    r
}

/// Looks for the workers among the threads of a process: by the given
/// prefix, or by the default one and then, if that matches nothing, by the
/// base name of the largest thread group. When nothing matches, the result
/// holds no workers and the diagnostic lines for the user.
pub fn identify_tokio_workers(threads: &[(u32, String)], name_prefix: Option<&str>) -> (r:
    WorkerSearch)
    ensures
        ({
            let ts = threads_view(threads@);
            let prefix = match name_prefix {
                Some(p) => p@,
                None => DEFAULT_PREFIX@,
            };
            let bases = base_names(ts);
            if collected(ts, prefix).len() > 0 {
                workers_view(r.workers@) == collected(ts, prefix) && r.report@.len() == 0
            } else if name_prefix is None && !no_pool(bases) {
                r.report@.len() == 0 && r.workers@.len() > 0 && exists|d: Seq<char>|
                    is_largest_group(bases, d) && first_of_its_size(bases, d) && workers_view(r.workers@) == collected(ts, d)
            } else {
                r.workers@.len() == 0 && reported_failure(ts, prefix, r.report@)
            }
        }),
{
    let prefix: &str = match name_prefix {
        Some(p) => p,
        None => DEFAULT_PREFIX,
    };
    let ghost ts = threads_view(threads@);
    let workers = collect_workers(threads, prefix);
    if workers.len() > 0 {
        return WorkerSearch { workers, report: Vec::new() };
    }
    let discovered = discover_worker_prefix(threads);
    if name_prefix.is_none() {
        if let Some(d) = &discovered {
            proof {
                lemma_largest_group_found(ts, d@);
            }
            if !str_eq(d.as_str(), DEFAULT_PREFIX) {
                let found = collect_workers(threads, d.as_str());
                if found.len() > 0 {
                    return WorkerSearch { workers: found, report: Vec::new() };
                }
            }
        }
    }
    let hint: Option<&str> = match &discovered {
        Some(d) => Some(d.as_str()),
        None => None,
    };
    let report = log_discovery_failure(threads, prefix, hint);
    let ghost disc: Option<Seq<char>> = match hint {
        Some(d) => Some(d@),
        None => None,
    };
    proof {
        let bases = base_names(ts);
        assert(workers_view(workers@).len() == workers@.len());
        assert(collected(ts, prefix@).len() == 0);
        if name_prefix is None {
            assert(prefix@ == DEFAULT_PREFIX@);
            if discovered is Some {
                assert(false);
            }
        }
        assert(disc is None <==> no_pool(bases));
        assert(disc matches Some(d) ==> is_largest_group(bases, d));
        assert(failure_report(ts, prefix@, disc, report@));
        assert(reported_failure(ts, prefix@, report@));
    }
    WorkerSearch { workers: Vec::new(), report }
}

/// The first steps of worker discovery, before any stack is sampled: with a
/// prefix given, the threads it names (possibly none) are the answer;
/// otherwise the threads with the default name, when there are any. `None`
/// means that stacks are to be sampled next.
pub fn start_discovery(threads: &[(u32, String)], worker_prefix: Option<&str>) -> (r: Option<
    Vec<WorkerInfo>,
>)
    ensures
        ({
            let ts = threads_view(threads@);
            match worker_prefix {
                Some(p) => r matches Some(ws) && workers_view(ws@) == collected(ts, p@),
                None => if collected(ts, DEFAULT_PREFIX@).len() > 0 {
                    r matches Some(ws) && workers_view(ws@) == collected(ts, DEFAULT_PREFIX@)
                } else {
                    r is None
                },
            }
        }),
{
    match worker_prefix {
        Some(p) => Some(collect_workers(threads, p)),
        None => {
            let workers = collect_workers(threads, DEFAULT_PREFIX);
            proof {
                assert(workers_view(workers@).len() == workers@.len());
            }
            if workers.len() > 0 {
                Some(workers)
            } else {
                None
            }
        },
    }
}

/// The last steps of worker discovery: the workers found by sampling stacks
/// when there are any, else the threads of the largest group of at least
/// two threads sharing a base name, else none.
pub fn finish_discovery(threads: &[(u32, String)], stack_workers: Vec<WorkerInfo>) -> (r: Vec<WorkerInfo>)
    ensures
        stack_workers@.len() > 0 ==> r@ == stack_workers@,
        stack_workers@.len() == 0 ==> ({
            let ts = threads_view(threads@);
            let bases = base_names(ts);
            &&& no_pool(bases) ==> r@.len() == 0
            &&& !no_pool(bases) ==> r@.len() > 0 && exists|d: Seq<char>|
                is_largest_group(bases, d) && first_of_its_size(bases, d) && workers_view(r@) == collected(ts, d)
        }),
{
    if stack_workers.len() > 0 {
        return stack_workers;
    }
    match discover_worker_prefix(threads) {
        Some(d) => {
            proof {
                lemma_largest_group_found(threads_view(threads@), d@);
            }
            let workers = collect_workers(threads, d.as_str());
            proof {
                assert(workers_view(workers@).len() == workers@.len());
            }
            workers
        },
        None => Vec::new(),
    }
}

} // verus!
