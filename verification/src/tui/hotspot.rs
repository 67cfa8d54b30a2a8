//! The hotspot list: selection and scrolling, filtering by name, and the
//! grouping of hotspots by the user source file they come from.
use crate::analysis::hotspot_analyzer::{
    analyze_hotspots, by_frequency, count_sum, hotspot_describes, ranked_hotspot, hotspot_names, hotspots_of, opt_view, sample_total,
    FunctionHotspot,
};
use crate::classification::FrameOrigin;
use crate::trace_data::{events_of_workers, events_on, same_members, same_workers, StackFrame, TraceData, TraceEvent};
use crate::text::{lowercase, to_lowercase, chars_eq, chars_of, contains_chars, contains_seq, dec_string, push_dec, push_str};
use std::sync::Arc;
use vstd::prelude::*;

verus! {

/// How the hotspots are listed.
#[derive(Debug, Clone, Copy, PartialEq, Eq, Structural)]
pub enum ViewMode {
    /// One line per function.
    Functions,
    /// One line per source file.
    Files,
}

impl Default for ViewMode {
    fn default() -> (r: Self)
        ensures
            r == ViewMode::Functions,
    {
        ViewMode::Functions
    }
}

/// The hotspots of one source file.
pub struct FileGroup {
    /// Source file path, or `<unknown>`.
    pub file: String,
    /// Samples of all its hotspots (saturating at `usize::MAX`).
    pub samples: usize,
    /// Number of hotspots in the file.
    pub count: usize,
    /// The hotspots, in list order.
    pub hotspots: Vec<FunctionHotspot>,
}

/// The hotspot list with its selection, filter and grouping.
pub struct HotspotView {
    scroll_offset: usize,
    /// Index of the selected line.
    pub selected_index: usize,
    /// The hotspots shown (filtered).
    pub hotspots: Vec<FunctionHotspot>,
    all_hotspots: Vec<FunctionHotspot>,
    filter_active: bool,
    view_mode: ViewMode,
    file_groups: Vec<FileGroup>,
}

// =============================================================================
// SPECIFICATION
// =============================================================================

/// Whether a hotspot name matches a search query, ignoring case.
pub open spec fn name_matches(name: Seq<char>, query: Seq<char>) -> bool {
    contains_seq(lowercase(name), lowercase(query))
}

/// The file of the first user-code frame that has one.
pub open spec fn user_file_in_frames(frames: Seq<StackFrame>) -> Option<Seq<char>>
    decreases frames.len(),
{
    if frames.len() == 0 {
        None
    } else if frames[0].origin == FrameOrigin::UserCode && frames[0].file is Some {
        opt_view(frames[0].file)
    } else {
        user_file_in_frames(frames.drop_first())
    }
}

/// The file of the first user-code frame, through the stacks in order.
pub open spec fn user_file_in_stacks(stacks: Seq<Arc<Vec<StackFrame>>>) -> Option<Seq<char>>
    decreases stacks.len(),
{
    if stacks.len() == 0 {
        None
    } else {
        match user_file_in_frames((*stacks[0])@) {
            Some(f) => Some(f),
            None => user_file_in_stacks(stacks.drop_first()),
        }
    }
}

/// The file a hotspot is grouped under: the user code that leads to it,
/// else its own file, else `<unknown>`.
pub open spec fn group_key(h: FunctionHotspot) -> Seq<char> {
    match user_file_in_stacks(h.call_stacks@) {
        Some(f) => f,
        None => match opt_view(h.file) {
            Some(f) => f,
            None => "<unknown>"@,
        },
    }
}

/// Sum of the counts, saturating at `usize::MAX`.
pub open spec fn saturated_samples(hs: Seq<FunctionHotspot>) -> usize
    decreases hs.len(),
{
    if hs.len() == 0 {
        0
    } else {
        let s = saturated_samples(hs.drop_last()) + hs.last().count;
        if s > usize::MAX {
            usize::MAX
        } else {
            s as usize
        }
    }
}

/// `a` and `b` hold the same hotspots, in the same order.
pub open spec fn same_hotspots(a: Seq<FunctionHotspot>, b: Seq<FunctionHotspot>) -> bool {
    a.len() == b.len() && forall|i: int| 0 <= i < a.len() ==> (#[trigger] a[i]).same_as(&b[i])
}

/// The hotspots of `hs` whose group key is `key`, in order.
pub open spec fn members(hs: Seq<FunctionHotspot>, key: Seq<char>) -> Seq<FunctionHotspot>
    decreases hs.len(),
{
    if hs.len() == 0 {
        seq![]
    } else if group_key(hs.last()) == key {
        members(hs.drop_last(), key).push(hs.last())
    } else {
        members(hs.drop_last(), key)
    }
}

/// Some group of `gs` is the group of `file`.
pub open spec fn has_group(gs: Seq<FileGroup>, file: Seq<char>) -> bool {
    exists|i: int| 0 <= i < gs.len() && #[trigger] gs[i].file@ == file
}

/// `g` is the group of file `g.file` among `hs`: those hotspots in order,
/// how many there are and their samples.
pub open spec fn group_of(hs: Seq<FunctionHotspot>, g: FileGroup) -> bool {
    &&& same_hotspots(g.hotspots@, members(hs, g.file@))
    &&& g.hotspots@.len() > 0
    &&& g.count == g.hotspots@.len()
    &&& g.samples == saturated_samples(g.hotspots@)
}

/// The hotspots of `hs` whose name matches `query`, in order.
pub open spec fn matching(hs: Seq<FunctionHotspot>, query: Seq<char>) -> Seq<FunctionHotspot>
    decreases hs.len(),
{
    if hs.len() == 0 {
        seq![]
    } else if name_matches(hs.last().name@, query) {
        matching(hs.drop_last(), query).push(hs.last())
    } else {
        matching(hs.drop_last(), query)
    }
}

/// `gs` groups `hs` by file: one group per file, each with the hotspots of
/// that file in order, the groups from the most to the least sampled.
pub open spec fn grouped(hs: Seq<FunctionHotspot>, gs: Seq<FileGroup>) -> bool {
    &&& forall|i: int, j: int| 0 <= i < j < gs.len() ==> #[trigger] gs[i].file@ != #[trigger] gs[j].file@
    &&& forall|i: int| 0 <= i < gs.len() ==> group_of(hs, #[trigger] gs[i])
    &&& forall|k: int| 0 <= k < hs.len() ==> has_group(gs, group_key(#[trigger] hs[k]))
    &&& forall|i: int, j: int| 0 <= i < j < gs.len() ==> #[trigger] gs[i].samples >= #[trigger] gs[j].samples
}

/// Largest number of two-line items that fit in `height` rows (minus the
/// border), at least one, at most `total_items`.
pub open spec fn visible_items_spec(height: u16, total_items: usize) -> usize {
    let avail: int = if height >= 2 {
        (height - 2) / 2
    } else {
        0
    };
    let n: int = if avail < 1 {
        1
    } else {
        avail
    };
    if n < total_items {
        n as usize
    } else {
        total_items
    }
}

/// The character sequence cut to `max_len` characters, ending in `...` when
/// it was cut.
pub open spec fn truncated(s: Seq<char>, max_len: nat) -> Seq<char> {
    if s.len() > max_len {
        let keep: int = if max_len >= 3 {
            max_len - 3
        } else {
            0
        };
        s.subrange(0, keep) + "..."@
    } else {
        s
    }
}

/// `d`, `h`, `m` and (under an hour) `s` parts of a duration.
pub open spec fn duration_parts(total: nat) -> Seq<Seq<char>> {
    let days = total / 86400;
    let hours = (total % 86400) / 3600;
    let mins = (total % 3600) / 60;
    let secs = total % 60;
    (if days > 0 {
        seq![dec_string(days) + seq!['d']]
    } else {
        seq![]
    }) + (if hours > 0 {
        seq![dec_string(hours) + seq!['h']]
    } else {
        seq![]
    }) + (if mins > 0 {
        seq![dec_string(mins) + seq!['m']]
    } else {
        seq![]
    }) + (if secs > 0 && total < 3600 {
        seq![dec_string(secs) + seq!['s']]
    } else {
        seq![]
    })
}

/// Parts joined with single spaces.
pub open spec fn space_joined(parts: Seq<Seq<char>>) -> Seq<char>
    decreases parts.len(),
{
    if parts.len() == 0 {
        seq![]
    } else if parts.len() == 1 {
        parts[0]
    } else {
        space_joined(parts.drop_last()) + " "@ + parts.last()
    }
}

/// A duration in seconds for people, such as `2d 4h 23m`.
pub open spec fn duration_human(total: nat) -> Seq<char> {
    if duration_parts(total).len() == 0 {
        "0s"@
    } else {
        space_joined(duration_parts(total))
    }
}

// =============================================================================
// IMPLEMENTATION
// =============================================================================

fn user_file_in_frames_exec(frames: &Vec<StackFrame>) -> (r: Option<String>)
    ensures
        opt_view(r) == user_file_in_frames(frames@),
{
    let mut i: usize = 0;
    assert(frames@.subrange(0, frames@.len() as int) =~= frames@);
    while i < frames.len()
        invariant
            i <= frames.len(),
            user_file_in_frames(frames@) == user_file_in_frames(frames@.subrange(i as int, frames@.len() as int)),
        decreases frames.len() - i,
    {
        let ghost rest = frames@.subrange(i as int, frames@.len() as int);
        assert(rest[0] == frames@[i as int]);
        if frames[i].origin.is_user_code() {
            if let Some(f) = &frames[i].file {
                return Some(f.clone());
            }
        }
        assert(rest.drop_first() =~= frames@.subrange(i + 1, frames@.len() as int));
        i += 1;
    }
    assert(frames@.subrange(i as int, frames@.len() as int).len() == 0);
    None
}

/// The file of the topmost user-code frame among the hotspot's call stacks.
pub fn find_user_code_file(hotspot: &FunctionHotspot) -> (r: Option<String>)
    ensures
        opt_view(r) == user_file_in_stacks(hotspot.call_stacks@),
{
    let stacks = &hotspot.call_stacks;
    let mut i: usize = 0;
    assert(stacks@.subrange(0, stacks@.len() as int) =~= stacks@);
    while i < stacks.len()
        invariant
            i <= stacks.len(),
            stacks@ == hotspot.call_stacks@,
            user_file_in_stacks(stacks@) == user_file_in_stacks(stacks@.subrange(i as int, stacks@.len() as int)),
        decreases stacks.len() - i,
    {
        let ghost rest = stacks@.subrange(i as int, stacks@.len() as int);
        assert(rest[0] == stacks@[i as int]);
        let frames: &Vec<StackFrame> = &stacks[i];
        assert(frames@ == (*stacks@[i as int])@);
        let found = user_file_in_frames_exec(frames);
        if found.is_some() {
            assert(user_file_in_stacks(rest) == user_file_in_frames((*rest[0])@));
            assert(opt_view(found) == user_file_in_stacks(rest));
            assert(opt_view(found) == user_file_in_stacks(hotspot.call_stacks@));
            return found;
        }
        assert(rest.drop_first() =~= stacks@.subrange(i + 1, stacks@.len() as int));
        i += 1;
    }
    assert(stacks@.subrange(i as int, stacks@.len() as int).len() == 0);
    None
}

/// The file a hotspot is grouped under.
fn group_key_of(h: &FunctionHotspot) -> (r: Vec<char>)
    ensures
        r@ == group_key(*h),
{
    match find_user_code_file(h) {
        Some(f) => chars_of(f.as_str()),
        None => match &h.file {
            Some(f) => chars_of(f.as_str()),
            None => chars_of("<unknown>"),
        },
    }
}

proof fn lemma_members_empty(hs: Seq<FunctionHotspot>, key: Seq<char>)
    requires
        forall|k: int| 0 <= k < hs.len() ==> group_key(#[trigger] hs[k]) != key,
    ensures
        members(hs, key).len() == 0,
    decreases hs.len(),
{
    if hs.len() > 0 {
        let t = hs.drop_last();
        assert forall|k: int| 0 <= k < t.len() implies group_key(#[trigger] t[k]) != key by {
            assert(t[k] == hs[k]);
        }
        lemma_members_empty(t, key);
        assert(group_key(hs[hs.len() - 1]) != key);
    }
}

/// The hotspots bucketed by file, buckets in order of first appearance.
#[verifier::spinoff_prover]
fn bucket_by_file(hotspots: &Vec<FunctionHotspot>) -> (r: (Vec<Vec<char>>, Vec<Vec<FunctionHotspot>>))
    ensures
        r.0@.len() == r.1@.len(),
        forall|a: int, b: int| 0 <= a < b < r.0@.len() ==> #[trigger] r.0@[a]@ != #[trigger] r.0@[b]@,
        forall|a: int| 0 <= a < r.1@.len() ==> same_hotspots(#[trigger] r.1@[a]@, members(hotspots@, r.0@[a]@)) && r.1@[a]@.len() > 0,
        forall|k: int| 0 <= k < hotspots@.len() ==> exists|a: int| 0 <= a < r.0@.len() && r.0@[a]@ == group_key(#[trigger] hotspots@[k]),
{
    let ghost hs = hotspots@;
    let mut keys: Vec<Vec<char>> = Vec::new();
    let mut buckets: Vec<Vec<FunctionHotspot>> = Vec::new();
    let mut i: usize = 0;
    while i < hotspots.len()
        invariant
            i <= hotspots.len(),
            hs == hotspots@,
            keys@.len() == buckets@.len(),
            forall|a: int, b: int| 0 <= a < b < keys@.len() ==> #[trigger] keys@[a]@ != #[trigger] keys@[b]@,
            forall|a: int| 0 <= a < buckets@.len() ==> same_hotspots(#[trigger] buckets@[a]@, members(hs.subrange(0, i as int), keys@[a]@)) && buckets@[a]@.len() > 0,
            forall|k: int| 0 <= k < i ==> exists|a: int| 0 <= a < keys@.len() && keys@[a]@ == group_key(#[trigger] hs[k]),
        decreases hotspots.len() - i,
    {
        let h = &hotspots[i];
        let key = group_key_of(h);
        let ghost pre = hs.subrange(0, i as int);
        let ghost next = hs.subrange(0, i + 1);
        assert(next.drop_last() =~= pre);
        assert(next.last() == hs[i as int]);
        let mut a: usize = 0;
        while a < keys.len() && !chars_eq(keys[a].as_slice(), key.as_slice())
            invariant
                a <= keys.len(),
                forall|b: int| 0 <= b < a ==> keys@[b]@ != key@,
            decreases keys.len() - a,
        {
            a += 1;
        }
        let ghost old_keys = keys@;
        let ghost old_buckets = buckets@;
        let copy = h.clone();
        if a < keys.len() {
            let mut bucket = buckets.remove(a);
            bucket.push(copy);
            buckets.insert(a, bucket);
            proof {
                assert(buckets@ =~= old_buckets.update(a as int, buckets@[a as int]));
            }
        } else {
            proof {
                assert forall|k: int| 0 <= k < pre.len() implies group_key(#[trigger] pre[k]) != key@ by {
                    assert(pre[k] == hs[k]);
                    let b = choose|b: int| 0 <= b < old_keys.len() && old_keys[b]@ == group_key(hs[k]);
                }
                lemma_members_empty(pre, key@);
            }
            let mut bucket: Vec<FunctionHotspot> = Vec::new();
            bucket.push(copy);
            buckets.push(bucket);
            keys.push(key);
        }
        proof {
            let nb = buckets@;
            assert(keys@.len() == nb.len());
            assert forall|b: int| 0 <= b < nb.len() implies same_hotspots(#[trigger] nb[b]@, members(next, keys@[b]@)) && nb[b]@.len() > 0 by {
                if b == a {
                    assert(keys@[b]@ == key@);
                    assert(members(next, key@) == members(pre, key@).push(hs[i as int]));
                    let mb = members(next, key@);
                    if a < old_keys.len() {
                        assert(nb[b]@ == old_buckets[b]@.push(copy));
                        assert forall|j: int| 0 <= j < nb[b]@.len() implies (#[trigger] nb[b]@[j]).same_as(&mb[j]) by {
                            if j < nb[b]@.len() - 1 {
                                assert(nb[b]@[j] == old_buckets[b]@[j]);
                                assert(old_buckets[b]@[j].same_as(&members(pre, key@)[j]));
                            }
                        }
                    } else {
                        assert(nb[b]@ =~= seq![copy]);
                    }
                } else {
                    assert(nb[b] == old_buckets[b]);
                    assert(keys@[b] == old_keys[b]);
                    assert(members(next, keys@[b]@) == members(pre, keys@[b]@));
                }
            }
            assert forall|x: int, y: int| 0 <= x < y < keys@.len() implies #[trigger] keys@[x]@ != #[trigger] keys@[y]@ by {
                if y == old_keys.len() {
                    assert(keys@[x] == old_keys[x]);
                } else {
                    assert(keys@[x] == old_keys[x] && keys@[y] == old_keys[y]);
                }
            }
            assert forall|k: int| 0 <= k < i + 1 implies exists|b: int| 0 <= b < keys@.len() && keys@[b]@ == group_key(#[trigger] hs[k]) by {
                if k == i {
                    assert(keys@[a as int]@ == key@);
                } else {
                    let b = choose|b: int| 0 <= b < old_keys.len() && old_keys[b]@ == group_key(hs[k]);
                    assert(keys@[b] == old_keys[b]);
                }
            }
        }
        i += 1;
    }
    assert(hs.subrange(0, hotspots.len() as int) =~= hs);
    assert forall|k: int| 0 <= k < hotspots@.len() implies exists|a: int| 0 <= a < keys@.len() && keys@[a]@ == group_key(#[trigger] hotspots@[k]) by {
        assert(hs[k] == hotspots@[k]);
    }
    (keys, buckets)
}

/// A group from its file and hotspots.
fn make_group(key: &Vec<char>, hotspots: Vec<FunctionHotspot>) -> (g: FileGroup)
    ensures
        g.file@ == key@,
        g.hotspots@ == hotspots@,
        g.count == hotspots@.len(),
        g.samples == saturated_samples(hotspots@),
{
    let mut samples: usize = 0;
    let mut i: usize = 0;
    while i < hotspots.len()
        invariant
            i <= hotspots.len(),
            samples == saturated_samples(hotspots@.subrange(0, i as int)),
        decreases hotspots.len() - i,
    {
        assert(hotspots@.subrange(0, i + 1).drop_last() =~= hotspots@.subrange(0, i as int));
        samples = samples.saturating_add(hotspots[i].count);
        i += 1;
    }
    assert(hotspots@.subrange(0, hotspots.len() as int) =~= hotspots@);
    let n = hotspots.len();
    FileGroup { file: crate::text::string_from_chars(key.as_slice()), samples, count: n, hotspots }
}

/// Groups hotspots by the user source file that leads to them, the groups
/// from the most to the least sampled.
#[verifier::rlimit(40)]
pub fn group_by_file(hotspots: &Vec<FunctionHotspot>) -> (r: Vec<FileGroup>)
    ensures
        grouped(hotspots@, r@),
{
    let ghost hs = hotspots@;
    let (keys, buckets) = bucket_by_file(hotspots);
    let mut groups: Vec<FileGroup> = Vec::new();
    let mut rest = buckets;
    let mut i: usize = 0;
    let ghost bs = rest@;
    while i < keys.len()
        invariant
            i <= keys.len() == bs.len(),
            rest@ == bs.subrange(i as int, bs.len() as int),
            groups@.len() == i,
            forall|a: int| 0 <= a < i ==> (#[trigger] groups@[a]).file@ == keys@[a]@ && groups@[a].hotspots@ == bs[a]@
                && groups@[a].count == bs[a]@.len() && groups@[a].samples == saturated_samples(bs[a]@),
        decreases keys.len() - i,
    {
        assert(rest@[0] == bs[i as int]);
        let bucket = rest.remove(0);
        let g = make_group(&keys[i], bucket);
        groups.push(g);
        i += 1;
        assert(rest@ =~= bs.subrange(i as int, bs.len() as int));
    }
    proof {
        assert forall|a: int, b: int| 0 <= a < b < files_of(groups@).len() implies #[trigger] files_of(groups@)[a] != #[trigger] files_of(groups@)[b] by {
            assert(keys@[a]@ != keys@[b]@);
        }
        assert(distinct_seqs(files_of(groups@)));
        assert forall|a: int| 0 <= a < groups@.len() implies group_ok(hs, #[trigger] groups@[a]) by {
            reveal(group_ok);
            assert(same_hotspots(bs[a]@, members(hs, keys@[a]@)));
        }
    }
    let ghost all = groups@;
    let out = sort_groups(groups, Ghost(hs));
    proof {
        assert forall|kk: int| 0 <= kk < hs.len() implies has_group(out@, group_key(#[trigger] hs[kk])) by {
            let b = choose|b: int| 0 <= b < keys@.len() && keys@[b]@ == group_key(hs[kk]);
            assert(files_of(all)[b] == keys@[b]@);
            assert(cover_ok(files_of(out@), files_of(all), all.len() as int));
            assert(files_of(all)[b] == files_of(all)[b]);
            let x = choose|x: int| 0 <= x < files_of(out@).len() && files_of(out@)[x] == files_of(all)[b];
            assert(out@[x].file@ == files_of(out@)[x]);
        }
        assert forall|a: int, b: int| 0 <= a < b < out@.len() implies #[trigger] out@[a].file@ != #[trigger] out@[b].file@ by {
            assert(distinct_seqs(files_of(out@)));
            assert(files_of(out@)[a] != files_of(out@)[b]);
        }
        assert forall|x: int| 0 <= x < out@.len() implies group_of(hs, #[trigger] out@[x]) by {
            assert(group_ok(hs, out@[x]));
            reveal(group_ok);
        }
        assert(forall|a: int, b: int| 0 <= a < b < out@.len() ==> #[trigger] out@[a].samples >= #[trigger] out@[b].samples);
        assert(forall|i: int, j: int| 0 <= i < j < out@.len() ==> #[trigger] out@[i].file@ != #[trigger] out@[j].file@);
        assert(forall|i: int| 0 <= i < out@.len() ==> group_of(hs, #[trigger] out@[i]));
        assert(hs == hotspots@);
    }
    out
}

/// `g` is the group of file `g.file` among `hs`.
#[verifier::opaque]
pub open spec fn group_ok(hs: Seq<FunctionHotspot>, g: FileGroup) -> bool {
    &&& same_hotspots(g.hotspots@, members(hs, g.file@))
    &&& g.hotspots@.len() > 0
    &&& g.count == g.hotspots@.len()
    &&& g.samples == saturated_samples(g.hotspots@)
}

/// The first `i` groups of `all`, from the most to the least sampled.
spec fn sorted_groups(out: Seq<FileGroup>, all: Seq<FileGroup>, i: int, hs: Seq<FunctionHotspot>) -> bool {
    &&& 0 <= i <= all.len()
    &&& out.len() == i
    &&& distinct_seqs(files_of(all))
    &&& forall|a: int| 0 <= a < all.len() ==> group_ok(hs, #[trigger] all[a])
    &&& forall|x: int| 0 <= x < out.len() ==> group_ok(hs, #[trigger] out[x])
    &&& origin_ok(files_of(out), files_of(all), i)
    &&& cover_ok(files_of(out), files_of(all), i)
    &&& forall|a: int, b: int| 0 <= a < b < out.len() ==> #[trigger] out[a].samples >= #[trigger] out[b].samples
    &&& distinct_seqs(files_of(out))
}

proof fn lemma_insert_keeps_ok(out: Seq<FileGroup>, g: FileGroup, p: int, hs: Seq<FunctionHotspot>)
    requires
        0 <= p <= out.len(),
        forall|x: int| 0 <= x < out.len() ==> group_ok(hs, #[trigger] out[x]),
        group_ok(hs, g),
    ensures
        forall|x: int| 0 <= x < out.len() + 1 ==> group_ok(hs, #[trigger] out.insert(p, g)[x]),
{
    let no = out.insert(p, g);
    assert forall|x: int| 0 <= x < no.len() implies group_ok(hs, #[trigger] no[x]) by {
        if x < p {
            assert(no[x] == out[x]);
        } else if x > p {
            assert(no[x] == out[x - 1]);
        }
    }
}

proof fn lemma_insert_keeps_order(out: Seq<FileGroup>, g: FileGroup, p: int)
    requires
        0 <= p <= out.len(),
        forall|a: int, b: int| 0 <= a < b < out.len() ==> #[trigger] out[a].samples >= #[trigger] out[b].samples,
        forall|j: int| 0 <= j < p ==> out[j].samples >= g.samples,
        p < out.len() ==> out[p].samples < g.samples,
    ensures
        forall|a: int, b: int| 0 <= a < b < out.len() + 1 ==> #[trigger] out.insert(p, g)[a].samples >= #[trigger] out.insert(p, g)[b].samples,
{
    let no = out.insert(p, g);
    assert forall|a: int, b: int| 0 <= a < b < no.len() implies #[trigger] no[a].samples >= #[trigger] no[b].samples by {
        if b < p {
            assert(no[a].samples == out[a].samples && no[b].samples == out[b].samples);
        } else if b == p {
            assert(no[a].samples == out[a].samples);
        } else if a < p {
            assert(no[a].samples == out[a].samples);
            assert(no[b].samples == out[b - 1].samples);
        } else if a == p {
            assert(no[b].samples == out[b - 1].samples);
            if b - 1 > p {
                assert(out[p].samples >= out[b - 1].samples);
            }
        } else {
            assert(no[a].samples == out[a - 1].samples);
            assert(no[b].samples == out[b - 1].samples);
        }
    }
}

spec fn origin_ok(fo: Seq<Seq<char>>, fa: Seq<Seq<char>>, i: int) -> bool {
    forall|x: int| 0 <= x < fo.len() ==> exists|y: int| 0 <= y < i && #[trigger] fo[x] == fa[y]
}

spec fn cover_ok(fo: Seq<Seq<char>>, fa: Seq<Seq<char>>, i: int) -> bool {
    forall|y: int| 0 <= y < i ==> exists|x: int| 0 <= x < fo.len() && fo[x] == #[trigger] fa[y]
}

spec fn distinct_seqs(f: Seq<Seq<char>>) -> bool {
    forall|a: int, b: int| 0 <= a < b < f.len() ==> #[trigger] f[a] != #[trigger] f[b]
}

spec fn files_of(gs: Seq<FileGroup>) -> Seq<Seq<char>> {
    Seq::new(gs.len(), |i: int| gs[i].file@)
}

proof fn lemma_insert_files(out: Seq<FileGroup>, g: FileGroup, p: int)
    requires
        0 <= p <= out.len(),
    ensures
        files_of(out.insert(p, g)) == files_of(out).insert(p, g.file@),
{
    assert(files_of(out.insert(p, g)) =~= files_of(out).insert(p, g.file@));
}

proof fn lemma_insert_origin(fo: Seq<Seq<char>>, fa: Seq<Seq<char>>, i: int, p: int)
    requires
        0 <= i < fa.len(),
        0 <= p <= fo.len(),
        origin_ok(fo, fa, i),
    ensures
        origin_ok(fo.insert(p, fa[i]), fa, i + 1),
{
    let no = fo.insert(p, fa[i]);
    assert forall|x: int| 0 <= x < no.len() implies exists|y: int| 0 <= y < i + 1 && #[trigger] no[x] == fa[y] by {
        if x < p {
            assert(no[x] == fo[x]);
            let y = choose|y: int| 0 <= y < i && #[trigger] fo[x] == fa[y];
        } else if x == p {
            assert(no[x] == fa[i]);
        } else {
            assert(no[x] == fo[x - 1]);
            let y = choose|y: int| 0 <= y < i && #[trigger] fo[x - 1] == fa[y];
        }
    }
}

proof fn lemma_insert_cover(fo: Seq<Seq<char>>, fa: Seq<Seq<char>>, i: int, p: int)
    requires
        0 <= i < fa.len(),
        0 <= p <= fo.len(),
        cover_ok(fo, fa, i),
    ensures
        cover_ok(fo.insert(p, fa[i]), fa, i + 1),
{
    let no = fo.insert(p, fa[i]);
    assert forall|y: int| 0 <= y < i + 1 implies exists|x: int| 0 <= x < no.len() && no[x] == #[trigger] fa[y] by {
        if y == i {
            assert(no[p] == fa[y]);
        } else {
            let x = choose|x: int| 0 <= x < fo.len() && fo[x] == fa[y];
            if x < p {
                assert(no[x] == fo[x]);
            } else {
                assert(no[x + 1] == fo[x]);
            }
        }
    }
}

proof fn lemma_insert_distinct(fo: Seq<Seq<char>>, fa: Seq<Seq<char>>, i: int, p: int)
    requires
        0 <= i < fa.len(),
        0 <= p <= fo.len(),
        distinct_seqs(fa),
        origin_ok(fo, fa, i),
        distinct_seqs(fo),
    ensures
        distinct_seqs(fo.insert(p, fa[i])),
{
    let no = fo.insert(p, fa[i]);
    assert forall|x: int| 0 <= x < fo.len() implies fo[x] != fa[i] by {
        let y = choose|y: int| 0 <= y < i && #[trigger] fo[x] == fa[y];
        assert(fa[y] != fa[i]);
    }
    assert forall|a: int, b: int| 0 <= a < b < no.len() implies #[trigger] no[a] != #[trigger] no[b] by {
        if b < p {
            assert(no[a] == fo[a] && no[b] == fo[b]);
        } else if b == p {
            assert(no[a] == fo[a]);
        } else if a < p {
            assert(no[a] == fo[a]);
            assert(no[b] == fo[b - 1]);
        } else if a == p {
            assert(no[b] == fo[b - 1]);
        } else {
            assert(no[a] == fo[a - 1]);
            assert(no[b] == fo[b - 1]);
        }
    }
}

/// The groups from the most to the least sampled (stable).
fn sort_groups(groups: Vec<FileGroup>, Ghost(hs): Ghost<Seq<FunctionHotspot>>) -> (out: Vec<FileGroup>)
    requires
        distinct_seqs(files_of(groups@)),
        forall|a: int| 0 <= a < groups@.len() ==> group_ok(hs, #[trigger] groups@[a]),
    ensures
        sorted_groups(out@, groups@, groups@.len() as int, hs),
{
    let ghost all = groups@;
    let total = groups.len();
    let mut groups = groups;
    let mut out: Vec<FileGroup> = Vec::new();
    let mut i: usize = 0;
    while groups.len() > 0
        invariant
            all.len() == total,
            sorted_groups(out@, all, i as int, hs),
            groups@ == all.subrange(i as int, all.len() as int),
        decreases groups@.len(),
    {
        assert(groups@[0] == all[i as int]);
        assert(i < all.len());
        let g = groups.remove(0);
        let mut p: usize = 0;
        while p < out.len() && out[p].samples >= g.samples
            invariant
                p <= out.len(),
                forall|j: int| 0 <= j < p ==> out@[j].samples >= g.samples,
            decreases out.len() - p,
        {
            p += 1;
        }
        proof {
            lemma_insert_keeps_ok(out@, g, p as int, hs);
            lemma_insert_keeps_order(out@, g, p as int);
            lemma_insert_files(out@, g, p as int);
            assert(all[i as int] == g);
            lemma_insert_origin(files_of(out@), files_of(all), i as int, p as int);
            lemma_insert_cover(files_of(out@), files_of(all), i as int, p as int);
            lemma_insert_distinct(files_of(out@), files_of(all), i as int, p as int);
        }
        out.insert(p, g);
        i += 1;
        assert(groups@ =~= all.subrange(i as int, all.len() as int));
    }
    out
}


/// A duration in whole seconds for people: days, hours and minutes, with
/// seconds only under an hour, such as `2d 4h 23m`; `0s` for zero.
pub fn format_duration_human(total_secs: u64) -> (r: String)
    ensures
        r@ == duration_human(total_secs as nat),
{
    let days = total_secs / 86400;
    let hours = (total_secs % 86400) / 3600;
    let mins = (total_secs % 3600) / 60;
    let secs = total_secs % 60;
    let ghost parts = duration_parts(total_secs as nat);
    let mut out = String::new();
    let mut n: usize = 0;
    let ghost p0: Seq<Seq<char>> = seq![];
    let ghost mut done: Seq<Seq<char>> = seq![];
    if days > 0 {
        push_part(&mut out, &mut n, days, 'd', Ghost(done));
        proof {
            done = done.push(dec_string(days as nat) + seq!['d']);
        }
    }
    if hours > 0 {
        push_part(&mut out, &mut n, hours, 'h', Ghost(done));
        proof {
            done = done.push(dec_string(hours as nat) + seq!['h']);
        }
    }
    if mins > 0 {
        push_part(&mut out, &mut n, mins, 'm', Ghost(done));
        proof {
            done = done.push(dec_string(mins as nat) + seq!['m']);
        }
    }
    if secs > 0 && total_secs < 3600 {
        push_part(&mut out, &mut n, secs, 's', Ghost(done));
        proof {
            done = done.push(dec_string(secs as nat) + seq!['s']);
        }
    }
    proof {
        assert(done =~= parts);
    }
    if n == 0 {
        return "0s".to_string();
    }
    out
}

/// Appends `value` and `unit` as the next part of a space-separated list.
fn push_part(out: &mut String, n: &mut usize, value: u64, unit: char, Ghost(done): Ghost<Seq<Seq<char>>>)
    requires
        old(out)@ == space_joined(done),
        *old(n) == done.len(),
        done.len() < 4,
    ensures
        final(out)@ == space_joined(done.push(dec_string(value as nat) + seq![unit])),
        *final(n) == done.len() + 1,
{
    if *n > 0 {
        push_str(out, " ");
    }
    push_dec(out, value);
    crate::text::push_char(out, unit);
    *n = *n + 1;
    proof {
        let next = done.push(dec_string(value as nat) + seq![unit]);
        assert(next.drop_last() =~= done);
        if done.len() == 0 {
            assert(next.len() == 1);
            assert(final(out)@ =~= next[0]);
        } else {
            assert(final(out)@ =~= space_joined(done) + " "@ + next.last());
        }
    }
}

/// The text cut to `max_len` characters, ending in `...` when it was cut
/// (lengths counted in characters).
pub fn truncate_for_display(s: &str, max_len: usize) -> (r: String)
    ensures
        r@ == truncated(s@, max_len as nat),
{
    let v = chars_of(s);
    if v.len() > max_len {
        let keep = max_len.saturating_sub(3);
        let head = crate::text::slice_chars(v.as_slice(), 0, keep);
        let mut r = crate::text::string_from_chars(head.as_slice());
        push_str(&mut r, "...");
        r
    } else {
        s.to_string()
    }
}

/// The scroll offset that keeps the selected line visible: the current one,
/// unless the selection is below the visible window, which then ends at it.
pub fn visible_scroll_offset(selected: usize, current_offset: usize, visible_count: usize) -> (r: usize)
    requires
        current_offset + visible_count <= usize::MAX,
        visible_count > 0 || selected < current_offset,
    ensures
        r == (if selected >= current_offset + visible_count {
            if selected >= visible_count - 1 {
                (selected - (visible_count - 1)) as usize
            } else {
                0
            }
        } else {
            current_offset
        }),
        current_offset <= selected ==> r <= selected < r + visible_count,
{
    if selected >= current_offset + visible_count {
        selected.saturating_sub(visible_count - 1)
    } else {
        current_offset
    }
}

/// How many two-line items fit in an area `height` rows high (its border
/// taken off): at least one, at most `total_items`.
pub fn visible_item_count(height: u16, total_items: usize) -> (r: usize)
    ensures
        r == visible_items_spec(height, total_items),
{
    let available = height.saturating_sub(2) as usize;
    let n = if available / 2 < 1 { 1 } else { available / 2 };
    if n < total_items {
        n
    } else {
        total_items
    }
}

/// The hotspots whose name contains the query, ignoring case; all of them
/// for an empty query.
pub fn filter_by_name(hotspots: &Vec<FunctionHotspot>, query: &str) -> (r: Vec<FunctionHotspot>)
    ensures
        query@.len() == 0 ==> same_hotspots(r@, hotspots@),
        query@.len() > 0 ==> same_hotspots(r@, matching(hotspots@, query@)),
{
    let mut out: Vec<FunctionHotspot> = Vec::new();
    if chars_of(query).len() == 0 {
        let mut i: usize = 0;
        while i < hotspots.len()
            invariant
                i <= hotspots.len(),
                same_hotspots(out@, hotspots@.subrange(0, i as int)),
            decreases hotspots.len() - i,
        {
            out.push(hotspots[i].clone());
            i += 1;
        }
        assert(hotspots@.subrange(0, hotspots.len() as int) =~= hotspots@);
        return out;
    }
    let q = to_lowercase(query);
    let qv = chars_of(q.as_str());
    let mut i: usize = 0;
    while i < hotspots.len()
        invariant
            i <= hotspots.len(),
            qv@ == lowercase(query@),
            same_hotspots(out@, matching(hotspots@.subrange(0, i as int), query@)),
        decreases hotspots.len() - i,
    {
        let ghost pre = hotspots@.subrange(0, i as int);
        let ghost next = hotspots@.subrange(0, i + 1);
        assert(next.drop_last() =~= pre);
        let name = to_lowercase(hotspots[i].name.as_str());
        let nv = chars_of(name.as_str());
        if contains_chars(nv.as_slice(), qv.as_slice()) {
            out.push(hotspots[i].clone());
        }
        i += 1;
    }
    assert(hotspots@.subrange(0, hotspots.len() as int) =~= hotspots@);
    out
}

fn copy_hotspots(hs: &Vec<FunctionHotspot>) -> (r: Vec<FunctionHotspot>)
    ensures
        same_hotspots(r@, hs@),
{
    let mut out: Vec<FunctionHotspot> = Vec::new();
    let mut i: usize = 0;
    while i < hs.len()
        invariant
            i <= hs.len(),
            same_hotspots(out@, hs@.subrange(0, i as int)),
        decreases hs.len() - i,
    {
        out.push(hs[i].clone());
        i += 1;
    }
    assert(hs@.subrange(0, hs.len() as int) =~= hs@);
    out
}

impl HotspotView {
    /// The hotspots shown.
    pub closed spec fn shown(&self) -> Seq<FunctionHotspot> {
        self.hotspots@
    }

    /// The selected line.
    pub closed spec fn selected(&self) -> usize {
        self.selected_index
    }

    /// All hotspots, before filtering.
    pub closed spec fn all(&self) -> Seq<FunctionHotspot> {
        self.all_hotspots@
    }

    /// The file groups of the hotspots shown.
    pub closed spec fn groups(&self) -> Seq<FileGroup> {
        self.file_groups@
    }

    /// The scroll offset.
    pub closed spec fn offset(&self) -> usize {
        self.scroll_offset
    }

    /// Whether a filter is applied.
    pub closed spec fn filtered(&self) -> bool {
        self.filter_active
    }

    /// The current view mode.
    pub closed spec fn mode(&self) -> ViewMode {
        self.view_mode
    }

    /// The view's invariant: the groups are those of the hotspots shown.
    pub closed spec fn wf(&self) -> bool {
        grouped(self.shown(), self.file_groups@)
    }

    /// A view of the hotspots of a snapshot: one per sampled function, most
    /// sampled first, each describing its function's samples, unfiltered,
    /// first line selected.
    pub fn new(data: &TraceData) -> (r: Self)
        ensures
            r.wf(),
            hotspots_of(data.events@, r.shown()),
            forall|i: int| 0 <= i < r.shown().len() ==> ranked_hotspot(#[trigger] r.shown()[i], data.events@),
            count_sum(r.shown()) == sample_total(data.events@),
            same_hotspots(r.all(), r.shown()),
            r.selected() == 0 && r.offset() == 0 && !r.filtered() && r.mode() == ViewMode::Functions,
    {
        let hotspots = analyze_hotspots(data);
        let ghost hs = hotspots@;
        let r = Self::from_hotspots(hotspots);
        proof {
            lemma_same_hotspots_describe(data.events@, hs, r.shown());
        }
        r
    }

    /// A view of the given hotspots, unfiltered, first line selected.
    pub fn from_hotspots(hotspots: Vec<FunctionHotspot>) -> (r: Self)
        ensures
            r.wf(),
            same_hotspots(r.shown(), hotspots@),
            same_hotspots(r.all(), hotspots@),
            r.selected() == 0 && r.offset() == 0 && !r.filtered() && r.mode() == ViewMode::Functions,
    {
        let file_groups = group_by_file(&hotspots);
        let all = copy_hotspots(&hotspots);
        proof {
            assert(same_hotspots(hotspots@, hotspots@)) by {
                assert forall|i: int| 0 <= i < hotspots@.len() implies (#[trigger] hotspots@[i]).same_as(&hotspots@[i]) by {}
            }
        }
        HotspotView {
            scroll_offset: 0,
            selected_index: 0,
            hotspots,
            all_hotspots: all,
            filter_active: false,
            view_mode: ViewMode::Functions,
            file_groups,
        }
    }

    /// Switches between the function and the file list.
    pub fn toggle_view(&mut self)
        ensures
            final(self).mode() != old(self).mode(),
            final(self).selected() == 0 && final(self).offset() == 0,
            final(self).shown() == old(self).shown() && final(self).groups() == old(self).groups(),
            final(self).all() == old(self).all() && final(self).filtered() == old(self).filtered(),
    {
        let next = match self.view_mode {
            ViewMode::Functions => ViewMode::Files,
            ViewMode::Files => ViewMode::Functions,
        };
        self.set_view_mode(next);
    }

    /// Sets the view mode; a change resets the selection and the scroll.
    pub fn set_view_mode(&mut self, mode: ViewMode)
        ensures
            final(self).mode() == mode,
            old(self).mode() != mode ==> final(self).selected() == 0 && final(self).offset() == 0,
            old(self).mode() == mode ==> final(self).selected() == old(self).selected()
                && final(self).offset() == old(self).offset(),
            final(self).shown() == old(self).shown() && final(self).groups() == old(self).groups(),
            final(self).all() == old(self).all() && final(self).filtered() == old(self).filtered(),
    {
        if self.view_mode != mode {
            self.view_mode = mode;
            self.selected_index = 0;
            self.scroll_offset = 0;
        }
    }

    /// The current view mode.
    pub fn view_mode(&self) -> (r: ViewMode)
        ensures
            r == self.mode(),
    {
        self.view_mode
    }

    /// The selected line.
    pub fn selected_line(&self) -> (r: usize)
        ensures
            r == self.selected(),
    {
        self.selected_index
    }

    /// Number of hotspots shown.
    pub fn shown_len(&self) -> (r: usize)
        ensures
            r == self.shown().len(),
    {
        self.hotspots.len()
    }

    /// Number of hotspots before filtering.
    pub fn total_len(&self) -> (r: usize)
        ensures
            r == self.all().len(),
    {
        self.all_hotspots.len()
    }

    /// The file groups of the hotspots shown.
    pub fn file_groups(&self) -> (r: &Vec<FileGroup>)
        ensures
            r@ == self.groups(),
    {
        &self.file_groups
    }

    /// Selects line `i`, leaving everything else as it is.
    pub fn set_selected_line(&mut self, i: usize)
        ensures
            final(self).selected() == i,
            final(self).shown() == old(self).shown() && final(self).groups() == old(self).groups(),
            final(self).all() == old(self).all() && final(self).filtered() == old(self).filtered()
                && final(self).mode() == old(self).mode() && final(self).offset() == old(self).offset(),
            old(self).wf() ==> final(self).wf(),
    {
        self.selected_index = i;
    }

    /// The current scroll offset.
    pub fn scroll_offset(&self) -> (r: usize)
        ensures
            r == self.offset(),
    {
        self.scroll_offset
    }

    /// Moves the selection up one line, scrolling up with it.
    pub fn scroll_up(&mut self)
        ensures
            final(self).selected() == if old(self).selected() > 0 {
                (old(self).selected() - 1) as usize
            } else {
                0
            },
            final(self).offset() == if old(self).selected() > 0 && (old(self).selected() - 1) < old(self).offset() {
                (old(self).selected() - 1) as usize
            } else {
                old(self).offset()
            },
            final(self).shown() == old(self).shown() && final(self).groups() == old(self).groups(),
            final(self).all() == old(self).all() && final(self).filtered() == old(self).filtered()
                && final(self).mode() == old(self).mode(),
    {
        if self.selected_index > 0 {
            self.selected_index -= 1;
            if self.selected_index < self.scroll_offset {
                self.scroll_offset = self.selected_index;
            }
        }
    }

    /// Number of lines in the current mode.
    pub open spec fn line_count(&self) -> nat {
        match self.mode() {
            ViewMode::Functions => self.shown().len(),
            ViewMode::Files => self.groups().len(),
        }
    }

    /// `self` lists the same lines as `o`: same hotspots shown and in all,
    /// same groups, filter state and view mode.
    pub open spec fn keeps_lines(&self, o: &HotspotView) -> bool {
        &&& self.shown() == o.shown()
        &&& self.groups() == o.groups()
        &&& self.all() == o.all()
        &&& self.filtered() == o.filtered()
        &&& self.mode() == o.mode()
    }

    /// Moves the selection down one line, if there is one.
    pub fn scroll_down(&mut self)
        ensures
            final(self).selected() == if old(self).selected() + 1 < old(self).line_count() {
                (old(self).selected() + 1) as usize
            } else {
                old(self).selected()
            },
            final(self).offset() == old(self).offset(),
            final(self).shown() == old(self).shown() && final(self).groups() == old(self).groups(),
            final(self).all() == old(self).all() && final(self).filtered() == old(self).filtered()
                && final(self).mode() == old(self).mode(),
    {
        let max_index = match self.view_mode {
            ViewMode::Functions => self.hotspots.len(),
            ViewMode::Files => self.file_groups.len(),
        };
        if self.selected_index < max_index && self.selected_index + 1 < max_index {
            self.selected_index += 1;
        }
    }

    /// The selected file group, in the file list.
    pub fn get_selected_file_group(&self) -> (r: Option<&FileGroup>)
        ensures
            self.selected() < self.groups().len() ==> r == Some(&self.groups()[self.selected() as int]),
            self.selected() >= self.groups().len() ==> r is None,
    {
        if self.selected_index < self.file_groups.len() {
            Some(&self.file_groups[self.selected_index])
        } else {
            None
        }
    }

    /// The selected hotspot.
    pub fn get_selected(&self) -> (r: Option<&FunctionHotspot>)
        ensures
            self.selected() < self.shown().len() ==> r == Some(&self.shown()[self.selected() as int]),
            self.selected() >= self.shown().len() ==> r is None,
    {
        if self.selected_index < self.hotspots.len() {
            Some(&self.hotspots[self.selected_index])
        } else {
            None
        }
    }

    /// Shows only the hotspots whose name contains the query (ignoring
    /// case); an empty query clears the filter.
    pub fn apply_filter(&mut self, query: &str)
        ensures
            final(self).wf(),
            query@.len() == 0 ==> same_hotspots(final(self).shown(), old(self).all()) && !final(self).filtered(),
            query@.len() > 0 ==> same_hotspots(final(self).shown(), matching(old(self).all(), query@)) && final(self).filtered(),
            final(self).selected() == 0 && final(self).offset() == 0,
            final(self).all() == old(self).all() && final(self).mode() == old(self).mode(),
    {
        if chars_of(query).len() == 0 {
            self.clear_filter();
            return;
        }
        self.hotspots = filter_by_name(&self.all_hotspots, query);
        self.file_groups = group_by_file(&self.hotspots);
        self.filter_active = true;
        self.selected_index = 0;
        self.scroll_offset = 0;
    }

    /// Shows the hotspots of the samples of the given workers only: when
    /// the workers given are those of the snapshot, all hotspots again; otherwise
    /// the hotspots of those workers' samples (one per sampled function,
    /// most sampled first), marked as filtered, first line selected.
    pub fn filter_by_workers(&mut self, worker_ids: &[u32], data: &TraceData)
        ensures
            final(self).wf(),
            same_members(worker_ids@, data.workers@) ==> same_hotspots(final(self).shown(), old(self).all())
                && !final(self).filtered(),
            !same_members(worker_ids@, data.workers@) ==> {
                let es = events_on(data.events@, worker_ids@);
                &&& hotspots_of(es, final(self).shown())
                &&& forall|i: int| 0 <= i < final(self).shown().len() ==> ranked_hotspot(#[trigger] final(self).shown()[i], es)
                &&& count_sum(final(self).shown()) == sample_total(es)
                &&& final(self).filtered()
            },
            final(self).selected() == 0 && final(self).offset() == 0,
            final(self).all() == old(self).all() && final(self).mode() == old(self).mode(),
    {
        if same_workers(worker_ids, data.workers.as_slice()) {
            self.clear_filter();
            return;
        }
        let events = events_of_workers(&data.events, worker_ids);
        let sub = TraceData { events, workers: Vec::new(), duration_ns: 0 };
        let hotspots = analyze_hotspots(&sub);
        self.file_groups = group_by_file(&hotspots);
        self.hotspots = hotspots;
        self.filter_active = true;
        self.selected_index = 0;
        self.scroll_offset = 0;
    }

    /// Shows all hotspots again.
    pub fn clear_filter(&mut self)
        ensures
            final(self).wf(),
            same_hotspots(final(self).shown(), old(self).all()),
            !final(self).filtered(),
            final(self).selected() == 0 && final(self).offset() == 0,
            final(self).all() == old(self).all() && final(self).mode() == old(self).mode(),
    {
        self.hotspots = copy_hotspots(&self.all_hotspots);
        self.file_groups = group_by_file(&self.hotspots);
        self.filter_active = false;
        self.selected_index = 0;
        self.scroll_offset = 0;
    }

    /// Whether a filter is applied.
    pub fn is_filtered(&self) -> (r: bool)
        ensures
            r == self.filtered(),
    {
        self.filter_active
    }
}

/// Clearing a filter shows every hotspot again, whatever filter was
/// applied before: filtering and then clearing restores the list.
pub proof fn lemma_clear_restores(before: Seq<FunctionHotspot>, after: Seq<FunctionHotspot>, all: Seq<FunctionHotspot>)
    requires
        same_hotspots(before, all),
        same_hotspots(after, all),
    ensures
        same_hotspots(after, before),
{
    assert forall|i: int| 0 <= i < after.len() implies (#[trigger] after[i]).same_as(&before[i]) by {
        assert(after[i].same_as(&all[i]));
        assert(before[i].same_as(&all[i]));
    }
}

/// Toggling the view twice comes back to the mode one started from.
pub proof fn lemma_toggle_twice(m: ViewMode)
    ensures
        toggled(toggled(m)) == m,
{
}

/// The other view mode.
pub open spec fn toggled(m: ViewMode) -> ViewMode {
    match m {
        ViewMode::Functions => ViewMode::Files,
        ViewMode::Files => ViewMode::Functions,
    }
}


/// Hotspots that agree field by field with a hotspot list of the samples
/// are one as well.
proof fn lemma_same_hotspots_describe(es: Seq<TraceEvent>, a: Seq<FunctionHotspot>, b: Seq<FunctionHotspot>)
    requires
        same_hotspots(b, a),
        hotspots_of(es, a),
        forall|i: int| 0 <= i < a.len() ==> ranked_hotspot(#[trigger] a[i], es),
        count_sum(a) == sample_total(es),
    ensures
        hotspots_of(es, b),
        forall|i: int| 0 <= i < b.len() ==> ranked_hotspot(#[trigger] b[i], es),
        count_sum(b) == sample_total(es),
{
    assert(hotspot_names(a) =~= hotspot_names(b)) by {
        assert forall|i: int| 0 <= i < a.len() implies hotspot_names(a)[i] == hotspot_names(b)[i] by {
            assert(b[i].same_as(&a[i]));
        }
    }
    assert forall|i: int, j: int| 0 <= i < j < b.len() implies #[trigger] b[i].name@ != #[trigger] b[j].name@ by {
        assert(b[i].same_as(&a[i]));
        assert(b[j].same_as(&a[j]));
    }
    assert forall|i: int, j: int| 0 <= i < j < b.len() implies #[trigger] b[i].count >= #[trigger] b[j].count by {
        assert(b[i].same_as(&a[i]));
        assert(b[j].same_as(&a[j]));
    }
    assert forall|i: int| 0 <= i < b.len() implies ranked_hotspot(#[trigger] b[i], es) by {
        assert(b[i].same_as(&a[i]));
        assert(ranked_hotspot(a[i], es));
        let ids = choose|ids: Seq<i64>| #[trigger] hotspot_describes(a[i], es, ids) && by_frequency(es, a[i].name@, ids);
        assert(hotspot_describes(b[i], es, ids));
    }
    lemma_same_count_sum(a, b);
}

/// Hotspots that agree field by field have the same count sum.
proof fn lemma_same_count_sum(a: Seq<FunctionHotspot>, b: Seq<FunctionHotspot>)
    requires
        same_hotspots(b, a),
    ensures
        count_sum(a) == count_sum(b),
    decreases a.len(),
{
    if a.len() > 0 {
        assert(b.last().same_as(&a.last()));
        assert(same_hotspots(b.drop_last(), a.drop_last())) by {
            assert forall|i: int| 0 <= i < b.drop_last().len() implies (#[trigger] b.drop_last()[i]).same_as(&a.drop_last()[i]) by {
                assert(b[i].same_as(&a[i]));
            }
        }
        lemma_same_count_sum(a.drop_last(), b.drop_last());
    }
}

/// The user file found in a stack is the file of its first frame that is
/// user code and has a file; frames of any other origin never supply it, and
/// none is found exactly when the stack has no user-code frame with a file.
pub proof fn lemma_user_file_in_frames(frames: Seq<StackFrame>)
    ensures
        user_file_in_frames(frames) matches Some(f) ==> exists|i: int|
            0 <= i < frames.len() && (#[trigger] frames[i]).origin == FrameOrigin::UserCode && opt_view(frames[i].file) == Some(f) && forall|k: int|
                0 <= k < i ==> !((#[trigger] frames[k]).origin == FrameOrigin::UserCode && frames[k].file is Some),
        user_file_in_frames(frames) is None <==> forall|i: int|
            0 <= i < frames.len() ==> !((#[trigger] frames[i]).origin == FrameOrigin::UserCode && frames[i].file is Some),
    decreases frames.len(),
{
    if frames.len() > 0 {
        let rest = frames.drop_first();
        lemma_user_file_in_frames(rest);
        if frames[0].origin == FrameOrigin::UserCode && frames[0].file is Some {
            assert(opt_view(frames[0].file) == user_file_in_frames(frames));
        } else {
            assert forall|i: int| 1 <= i < frames.len() implies #[trigger] frames[i] == rest[i - 1] by {}
            if let Some(f) = user_file_in_frames(frames) {
                let j = choose|j: int|
                    0 <= j < rest.len() && (#[trigger] rest[j]).origin == FrameOrigin::UserCode && opt_view(rest[j].file) == Some(f) && forall|k: int|
                        0 <= k < j ==> !((#[trigger] rest[k]).origin == FrameOrigin::UserCode && rest[k].file is Some);
                assert(frames[j + 1] == rest[j]);
                assert forall|k: int| 0 <= k < j + 1 implies !((#[trigger] frames[k]).origin == FrameOrigin::UserCode
                    && frames[k].file is Some) by {
                    if k > 0 {
                        assert(frames[k] == rest[k - 1]);
                    }
                }
            }
            if user_file_in_frames(frames) is None {
                assert forall|i: int| 0 <= i < frames.len() implies !((#[trigger] frames[i]).origin
                    == FrameOrigin::UserCode && frames[i].file is Some) by {
                    if i > 0 {
                        assert(frames[i] == rest[i - 1]);
                    }
                }
            } else {
                let f = user_file_in_frames(frames)->0;
                let j = choose|j: int|
                    0 <= j < rest.len() && (#[trigger] rest[j]).origin == FrameOrigin::UserCode && opt_view(rest[j].file) == Some(f) && forall|k: int|
                        0 <= k < j ==> !((#[trigger] rest[k]).origin == FrameOrigin::UserCode && rest[k].file is Some);
                assert(frames[j + 1] == rest[j]);
            }
        }
    }
}

/// The file a hotspot is grouped under, when some frame of its call stacks is
/// user code with a file, is the file of such a frame: the first one of the
/// first stack that has one. A frame of another origin never supplies it.
/// Without such a frame the hotspot's own file is used, else `<unknown>`.
pub proof fn law_group_key_is_user_code_file(h: FunctionHotspot)
    ensures
        (exists|j: int, i: int|
            0 <= j < h.call_stacks@.len() && 0 <= i < (*h.call_stacks@[j])@.len() && (#[trigger] (*h.call_stacks@[j])@[i]).origin
                == FrameOrigin::UserCode && (*h.call_stacks@[j])@[i].file is Some) ==> exists|j: int, i: int|
            0 <= j < h.call_stacks@.len() && 0 <= i < (*h.call_stacks@[j])@.len() && (#[trigger] (*h.call_stacks@[j])@[i]).origin
                == FrameOrigin::UserCode && opt_view((*h.call_stacks@[j])@[i].file) == Some(group_key(h)),
        (forall|j: int, i: int|
            0 <= j < h.call_stacks@.len() && 0 <= i < (*h.call_stacks@[j])@.len() ==> !((#[trigger] (*h.call_stacks@[j])@[i]).origin
                == FrameOrigin::UserCode && (*h.call_stacks@[j])@[i].file is Some)) ==> group_key(h) == match h.file {
            Some(f) => f@,
            None => "<unknown>"@,
        },
{
    lemma_user_file_in_stacks(h.call_stacks@);
}

proof fn lemma_user_file_in_stacks(stacks: Seq<Arc<Vec<StackFrame>>>)
    ensures
        user_file_in_stacks(stacks) matches Some(f) ==> exists|j: int, i: int|
            0 <= j < stacks.len() && 0 <= i < (*stacks[j])@.len() && (#[trigger] (*stacks[j])@[i]).origin == FrameOrigin::UserCode
                && opt_view((*stacks[j])@[i].file) == Some(f),
        user_file_in_stacks(stacks) is None <==> forall|j: int, i: int|
            0 <= j < stacks.len() && 0 <= i < (*stacks[j])@.len() ==> !((#[trigger] (*stacks[j])@[i]).origin
                == FrameOrigin::UserCode && (*stacks[j])@[i].file is Some),
    decreases stacks.len(),
{
    if stacks.len() > 0 {
        let rest = stacks.drop_first();
        lemma_user_file_in_stacks(rest);
        lemma_user_file_in_frames((*stacks[0])@);
        assert forall|j: int| 1 <= j < stacks.len() implies #[trigger] stacks[j] == rest[j - 1] by {}
        match user_file_in_frames((*stacks[0])@) {
            Some(f) => {
                let i = choose|i: int|
                    0 <= i < (*stacks[0])@.len() && (#[trigger] (*stacks[0])@[i]).origin == FrameOrigin::UserCode
                        && opt_view((*stacks[0])@[i].file) == Some(f) && forall|k: int|
                        0 <= k < i ==> !((#[trigger] (*stacks[0])@[k]).origin == FrameOrigin::UserCode
                            && (*stacks[0])@[k].file is Some);
                assert(0 <= 0 < stacks.len() && 0 <= i < (*stacks[0])@.len());
            },
            None => {
                if let Some(f) = user_file_in_stacks(rest) {
                    let (j, i) = choose|j: int, i: int|
                        0 <= j < rest.len() && 0 <= i < (*rest[j])@.len() && (#[trigger] (*rest[j])@[i]).origin
                            == FrameOrigin::UserCode && opt_view((*rest[j])@[i].file) == Some(f);
                    assert(stacks[j + 1] == rest[j]);
                    assert((*stacks[j + 1])@[i] == (*rest[j])@[i]);
                } else {
                    assert forall|j: int, i: int|
                        0 <= j < stacks.len() && 0 <= i < (*stacks[j])@.len() implies !((#[trigger] (*stacks[j])@[i]).origin
                            == FrameOrigin::UserCode && (*stacks[j])@[i].file is Some) by {
                        if j > 0 {
                            assert(stacks[j] == rest[j - 1]);
                            assert((*stacks[j])@[i] == (*rest[j - 1])@[i]);
                        }
                    }
                }
                if user_file_in_stacks(stacks) is None {
                } else {
                }
            },
        }
        if !(user_file_in_stacks(stacks) is None) {
            // some user frame exists: covered by the first clause
        }
    }
}

} // verus!
