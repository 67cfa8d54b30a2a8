//! The list of online CPUs, read from the text of
//! `/sys/devices/system/cpu/online` (such as `0-3,8-11`).
use crate::domain::types::CpuId;
use crate::process_lookup::{last_index_of};
use crate::text::{
    chars_of, first_index_of, find_char, is_ws, is_whitespace_char, parse_u32_chars, parse_u32_spec,
    slice_chars, split_char_chars, split_pieces, views,
};
use vstd::prelude::*;

verus! {

/// A part of the CPU list that is not a number or a range of numbers.
#[derive(Debug, PartialEq, Eq)]
pub struct CpuListError;

/// The text without leading and trailing whitespace.
pub open spec fn trimmed(s: Seq<char>) -> Seq<char>
    decreases s.len(),
{
    if s.len() > 0 && is_ws(s[0]) {
        trimmed(s.drop_first())
    } else if s.len() > 0 && is_ws(s.last()) {
        trimmed(s.drop_last())
    } else {
        s
    }
}

/// The numbers from `start` to `end`, both included.
pub open spec fn cpu_range(start: u32, end: u32) -> Seq<u32> {
    Seq::new(if end >= start { (end - start + 1) as nat } else { 0 }, |i: int| (start + i) as u32)
}

/// The CPUs of one part: `a-b` or `a`.
pub open spec fn part_cpus(p: Seq<char>) -> Option<Seq<u32>> {
    match first_index_of(p, '-') {
        Some(d) => match (parse_u32_spec(p.subrange(0, d)), parse_u32_spec(p.subrange(d + 1, p.len() as int))) {
            (Some(a), Some(b)) => Some(cpu_range(a, b)),
            _ => None,
        },
        None => match parse_u32_spec(p) {
            Some(a) => Some(seq![a]),
            None => None,
        },
    }
}

/// The CPUs of the first `k` parts, in order, if all of them are well formed.
pub open spec fn parts_cpus(parts: Seq<Seq<char>>, k: int) -> Option<Seq<u32>>
    decreases k,
{
    if k <= 0 {
        Some(seq![])
    } else {
        match (parts_cpus(parts, k - 1), part_cpus(parts[k - 1])) {
            (Some(a), Some(b)) => Some(a + b),
            _ => None,
        }
    }
}

/// The CPUs listed in the text.
pub open spec fn online_cpus_spec(content: Seq<char>) -> Option<Seq<u32>> {
    let parts = split_pieces(trimmed(content), ',');
    parts_cpus(parts, parts.len() as int)
}

/// The text without leading and trailing whitespace.
fn trim_chars(s: &[char]) -> (r: Vec<char>)
    ensures
        r@ == trimmed(s@),
{
    let mut a: usize = 0;
    let mut b: usize = s.len();
    assert(s@.subrange(0, s.len() as int) =~= s@);
    while a < b && is_whitespace_char(s[a])
        invariant
            a <= b <= s.len(),
            b == s.len(),
            trimmed(s@) == trimmed(s@.subrange(a as int, b as int)),
        decreases b - a,
    {
        assert(s@.subrange(a as int, b as int).drop_first() =~= s@.subrange(a + 1, b as int));
        a += 1;
    }
    while a < b && is_whitespace_char(s[b - 1])
        invariant
            a <= b <= s.len(),
            trimmed(s@) == trimmed(s@.subrange(a as int, b as int)),
            a < b ==> !is_ws(s@[a as int]),
        decreases b - a,
    {
        let ghost cur = s@.subrange(a as int, b as int);
        assert(cur[0] == s@[a as int]);
        assert(cur.drop_last() =~= s@.subrange(a as int, b - 1));
        b -= 1;
    }
    let r = slice_chars(s, a, b);
    proof {
        let cur = s@.subrange(a as int, b as int);
        if cur.len() > 0 {
            assert(cur[0] == s@[a as int]);
            assert(cur.last() == s@[b - 1]);
        }
    }
    r
}

proof fn lemma_first_dash(p: Seq<char>, d: int)
    requires
        0 <= d < p.len(),
        p[d] == '-',
        forall|j: int| 0 <= j < d ==> p[j] != '-',
    ensures
        first_index_of(p, '-') == Some(d),
{
    let k = choose|k: int| 0 <= k < p.len() && p[k] == '-' && forall|j: int| 0 <= j < k ==> p[j] != '-';
    assert(0 <= k < p.len() && p[k] == '-' && forall|j: int| 0 <= j < k ==> p[j] != '-');
    if k < d {
        assert(p[k] != '-');
    }
    if d < k {
        assert(p[d] != '-');
    }
}

/// The CPUs of one part of the list.
fn part_cpu_ids(p: &[char]) -> (r: Option<Vec<u32>>)
    ensures
        match r {
            Some(v) => part_cpus(p@) == Some(v@),
            None => part_cpus(p@) is None,
        },
{
    match find_char(p, '-') {
        Some(d) => {
            proof {
                lemma_first_dash(p@, d as int);
            }
            let left = slice_chars(p, 0, d);
            let right = slice_chars(p, d + 1, p.len());
            match (parse_u32_chars(left.as_slice()), parse_u32_chars(right.as_slice())) {
                (Some(a), Some(b)) => {
                    let mut v: Vec<u32> = Vec::new();
                    if a <= b {
                        let mut c: u64 = a as u64;
                        while c <= b as u64
                            invariant
                                a <= c <= b + 1,
                                a <= b,
                                v@ == cpu_range(a, b).subrange(0, (c - a) as int),
                            decreases b + 1 - c,
                        {
                            v.push(c as u32);
                            c += 1;
                            assert(v@ =~= cpu_range(a, b).subrange(0, (c - a) as int));
                        }
                        assert(v@ =~= cpu_range(a, b));
                    } else {
                        assert(v@ =~= cpu_range(a, b));
                    }
                    Some(v)
                },
                _ => None,
            }
        },
        None => {
            match parse_u32_chars(p) {
                Some(a) => {
                    let mut v: Vec<u32> = Vec::new();
                    v.push(a);
                    assert(v@ =~= seq![a]);
                    Some(v)
                },
                None => None,
            }
        },
    }
}

/// Parses the list of online CPUs (`0-3,8-11`, `5`, ...), in the order
/// listed; a part that is not a number or a range is an error.
pub fn parse_online_cpus(content: &str) -> (r: Result<Vec<CpuId>, CpuListError>)
    ensures
        match online_cpus_spec(content@) {
            Some(ids) => r is Ok && r->Ok_0@.len() == ids.len() && forall|k: int| 0 <= k < ids.len() ==> (#[trigger] r->Ok_0@[k]).0 == ids[k],
            None => r is Err,
        },
{
    let s = chars_of(content);
    let t = trim_chars(s.as_slice());
    let parts = split_char_chars(t.as_slice(), ',');
    let ghost ps = split_pieces(t@, ',');
    assert(parts@.len() == ps.len());
    let mut out: Vec<CpuId> = Vec::new();
    let ghost mut ids: Seq<u32> = seq![];
    let mut i: usize = 0;
    while i < parts.len()
        invariant
            i <= parts.len(),
            ps == split_pieces(t@, ','),
            t@ == trimmed(content@),
            parts@.len() == ps.len(),
            forall|j: int| 0 <= j < parts@.len() ==> #[trigger] parts@[j]@ == ps[j],
            parts_cpus(ps, i as int) == Some(ids),
            out@.len() == ids.len(),
            forall|k: int| 0 <= k < ids.len() ==> (#[trigger] out@[k]).0 == ids[k],
        decreases parts.len() - i,
    {
        assert(parts@[i as int]@ == ps[i as int]);
        match part_cpu_ids(parts[i].as_slice()) {
            Some(v) => {
                let ghost before = out@;
                let mut k: usize = 0;
                while k < v.len()
                    invariant
                        k <= v.len(),
                        out@.len() == before.len() + k,
                        forall|q: int| 0 <= q < before.len() ==> out@[q] == before[q],
                        forall|q: int| 0 <= q < k ==> (#[trigger] out@[before.len() + q]).0 == v@[q],
                    decreases v.len() - k,
                {
                    out.push(CpuId(v[k]));
                    k += 1;
                }
                proof {
                    let nids = ids + v@;
                    assert forall|q: int| 0 <= q < nids.len() implies (#[trigger] out@[q]).0 == nids[q] by {
                        if q < ids.len() {
                            assert(out@[q] == before[q]);
                        } else {
                            assert(out@[before.len() + (q - ids.len())].0 == v@[q - ids.len()]);
                        }
                    }
                    ids = nids;
                }
            },
            None => {
                proof {
                    lemma_parts_none(ps, i as int, ps.len() as int);
                }
                return Err(CpuListError);
            },
        }
        i += 1;
    }
    Ok(out)
}

proof fn lemma_parts_none(parts: Seq<Seq<char>>, i: int, k: int)
    requires
        0 <= i < k <= parts.len(),
        part_cpus(parts[i]) is None,
    ensures
        parts_cpus(parts, k) is None,
    decreases k,
{
    if k - 1 > i {
        lemma_parts_none(parts, i, k - 1);
    }
}

} // verus!
