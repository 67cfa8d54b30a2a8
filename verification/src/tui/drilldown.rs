//! The content of the detail view of one hotspot: its call trace (the
//! outermost frames first, at most eight), the busiest workers that sampled
//! it, and the height of the popup.
use crate::analysis::hotspot_analyzer::FunctionHotspot;
use crate::process_lookup::{file_name, file_name_spec};
use crate::text::{chars_of, dec_string, push_chars, push_dec, push_str};
use crate::trace_data::StackFrame;
use vstd::prelude::*;

verus! {

/// Most frames listed in the call trace.
pub const MAX_TRACE_FRAMES: usize = 8;

/// Most workers listed in the worker distribution.
pub const MAX_LISTED_WORKERS: usize = 4;

/// One line of the call trace.
pub struct TraceRow {
    /// Whether it is the last line of the trace (drawn `└→`, the others `├→`).
    pub last: bool,
    /// The frame's function.
    pub function: String,
    /// Where the frame is: the file's name and line (`main.rs:12`), the
    /// file's name alone when the line is unknown, empty without a file.
    pub location: String,
    /// Whether the frame is in user code.
    pub is_user_code: bool,
}

/// The location text of a frame.
pub open spec fn frame_location(f: StackFrame) -> Seq<char> {
    match f.file {
        None => seq![],
        Some(p) => {
            let name = match file_name_spec(p@) {
                Some(n) => n,
                None => p@,
            };
            match f.line {
                Some(l) => name + ":"@ + dec_string(l as nat),
                None => name,
            }
        },
    }
}

/// Number of frames listed for a stack of `n` frames.
pub open spec fn listed_frames(n: nat) -> nat {
    if n > MAX_TRACE_FRAMES {
        MAX_TRACE_FRAMES as nat
    } else {
        n
    }
}

/// `r` is line `i` of the call trace of `stack`: the frame `i` places from
/// the outermost one.
pub open spec fn trace_row(stack: Seq<StackFrame>, i: int, r: TraceRow) -> bool {
    let f = stack[stack.len() - 1 - i];
    &&& r.last == (i == listed_frames(stack.len()) - 1)
    &&& r.function@ == f.function@
    &&& r.location@ == frame_location(f)
    &&& r.is_user_code == f.is_user_code
}

/// The location text of a frame.
fn location_of_frame(f: &StackFrame) -> (r: String)
    ensures
        r@ == frame_location(*f),
{
    let mut out = String::new();
    match &f.file {
        None => {},
        Some(p) => {
            let path = chars_of(p.as_str());
            match file_name(path.as_slice()) {
                Some(n) => push_chars(&mut out, n.as_slice()),
                None => push_chars(&mut out, path.as_slice()),
            }
            match f.line {
                Some(l) => {
                    push_str(&mut out, ":");
                    push_dec(&mut out, l as u64);
                },
                None => {},
            }
        },
    }
    proof {
        reveal_strlit(":");
    }
    out
}

/// The call trace of a stack (innermost frame first): its outermost frames
/// first, at most eight, and how many frames were left out.
pub fn call_trace(stack: &Vec<StackFrame>) -> (r: (Vec<TraceRow>, usize))
    ensures
        r.0@.len() == listed_frames(stack@.len()),
        forall|i: int| 0 <= i < r.0@.len() ==> trace_row(stack@, i, #[trigger] r.0@[i]),
        r.1 == stack@.len() - listed_frames(stack@.len()),
{
    let n = stack.len();
    let shown: usize = if n > MAX_TRACE_FRAMES { MAX_TRACE_FRAMES } else { n };
    let mut rows: Vec<TraceRow> = Vec::new();
    let mut i: usize = 0;
    while i < shown
        invariant
            n == stack@.len(),
            shown == listed_frames(n as nat),
            i <= shown,
            rows@.len() == i,
            forall|k: int| 0 <= k < i ==> trace_row(stack@, k, #[trigger] rows@[k]),
        decreases shown - i,
    {
        let f = &stack[n - 1 - i];
        let row = TraceRow {
            last: i + 1 == shown,
            function: f.function.clone(),
            location: location_of_frame(f),
            is_user_code: f.is_user_code,
        };
        rows.push(row);
        i += 1;
    }
    (rows, n - shown)
}

/// `s` is ordered from the most to the least samples.
pub open spec fn by_count_desc(s: Seq<(u32, usize)>) -> bool {
    forall|a: int, b: int| 0 <= a < b < s.len() ==> (#[trigger] s[a]).1 >= (#[trigger] s[b]).1
}

/// The busiest workers of a hotspot's per-worker counts: all of them
/// ordered from the most to the least samples (in some order among equal
/// counts), of which the first four are kept.
pub fn top_workers(workers: &Vec<(u32, usize)>) -> (r: Vec<(u32, usize)>)
    ensures
        exists|s: Seq<(u32, usize)>| #[trigger] by_count_desc(s) && s.to_multiset() == workers@.to_multiset()
            && r@ == s.take(if s.len() > MAX_LISTED_WORKERS { MAX_LISTED_WORKERS as int } else { s.len() as int }),
{
    let mut sorted: Vec<(u32, usize)> = Vec::new();
    let mut k: usize = 0;
    assert(sorted@ =~= workers@.subrange(0, 0));
    while k < workers.len()
        invariant
            k <= workers.len(),
            by_count_desc(sorted@),
            sorted@.to_multiset() == workers@.subrange(0, k as int).to_multiset(),
        decreases workers.len() - k,
    {
        let e = workers[k];
        let ghost old_sorted = sorted@;
        let mut p: usize = 0;
        while p < sorted.len() && sorted[p].1 >= e.1
            invariant
                p <= sorted.len(),
                sorted@ == old_sorted,
                forall|j: int| 0 <= j < p ==> sorted@[j].1 >= e.1,
            decreases sorted.len() - p,
        {
            p += 1;
        }
        sorted.insert(p, e);
        proof {
            let ns = sorted@;
            assert(ns =~= old_sorted.insert(p as int, e));
            vstd::seq_lib::to_multiset_insert(old_sorted, p as int, e);
            assert(workers@.subrange(0, k + 1) =~= workers@.subrange(0, k as int).push(e));
            vstd::seq_lib::to_multiset_build(workers@.subrange(0, k as int), e);
            assert forall|a: int, b: int| 0 <= a < b < ns.len() implies (#[trigger] ns[a]).1 >= (#[trigger] ns[b]).1 by {
                if b < p {
                } else if b == p {
                } else if a < p {
                    assert(ns[b] == old_sorted[b - 1]);
                } else if a == p {
                    assert(ns[b] == old_sorted[b - 1]);
                    if b - 1 > p {
                        assert(old_sorted[p as int].1 >= old_sorted[b - 1].1);
                    }
                } else {
                    assert(ns[a] == old_sorted[a - 1]);
                    assert(ns[b] == old_sorted[b - 1]);
                }
            }
        }
        k += 1;
    }
    assert(workers@.subrange(0, workers.len() as int) =~= workers@);
    let keep: usize = if sorted.len() > MAX_LISTED_WORKERS { MAX_LISTED_WORKERS } else { sorted.len() };
    let mut r: Vec<(u32, usize)> = Vec::new();
    let mut i: usize = 0;
    while i < keep
        invariant
            keep <= sorted.len(),
            i <= keep,
            r@ == sorted@.take(i as int),
        decreases keep - i,
    {
        r.push(sorted[i]);
        assert(r@ =~= sorted@.take(i + 1));
        i += 1;
    }
    assert(by_count_desc(sorted@));
    r
}

/// Height of the detail popup: sixteen lines, plus the call trace (at most
/// five frames and two lines) when the hotspot has a stack, plus the
/// workers (at most four and a title), at most 35.
pub fn drilldown_height(hotspot: &FunctionHotspot) -> (r: u16)
    ensures
        r == ({
            let stack_lines: int = if hotspot.call_stacks@.len() > 0 {
                let n = hotspot.call_stacks@[0]@.len();
                (if n > 5 { 5 } else { n as int }) + 2
            } else {
                0
            };
            let worker_lines: int = (if hotspot.workers@.len() > 4 { 4 } else { hotspot.workers@.len() as int }) + 1;
            let total = 16 + stack_lines + worker_lines;
            if total > 35 { 35 } else { total }
        }),
{
    let stack_lines: usize = if hotspot.call_stacks.len() > 0 {
        let n = hotspot.call_stacks[0].len();
        (if n > 5 { 5 } else { n }) + 2
    } else {
        0
    };
    let worker_lines: usize = (if hotspot.workers.len() > 4 { 4 } else { hotspot.workers.len() }) + 1;
    let total = 16 + stack_lines + worker_lines;
    if total > 35 { 35 } else { total as u16 }
}

} // verus!
