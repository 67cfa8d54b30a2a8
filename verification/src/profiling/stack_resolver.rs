//! Address handling for stack traces: which addresses are the executable's
//! and at what file offset, where a stack ends, and the line printed for an
//! address outside the executable.
use crate::symbolization::memory_maps::MemoryRange;
use crate::symbolization::symbolizer::ResolvedFrame;
use crate::text::{dec_chars, dec_string, hex_chars, hex_string, pad_left, pad_right, push_padded_left, push_padded_right, push_str};
use vstd::prelude::*;

verus! {

/// The file offset of an address and whether it lies in the executable:
/// inside the executable's range the offset from its start, outside it the
/// address itself; without a known range every address counts as the
/// executable's.
pub open spec fn adjusted(memory_range: Option<MemoryRange>, addr: u64) -> (u64, bool) {
    match memory_range {
        Some(range) => if range.start <= addr && addr < range.end {
            ((addr - range.start) as u64, true)
        } else {
            (addr, false)
        },
        None => (addr, true),
    }
}

/// Adjusts an address for a position-independent executable.
pub fn adjust_address(memory_range: Option<MemoryRange>, addr: u64) -> (r: (u64, bool))
    ensures
        r == adjusted(memory_range, addr),
{
    match memory_range {
        Some(range) => {
            if range.contains(addr) {
                (addr - range.start, true)
            } else {
                (addr, false)
            }
        },
        None => (addr, true),
    }
}

/// The first non-null address of a stack.
pub fn top_frame_addr(ips: &[u64]) -> (r: Option<u64>)
    ensures
        match r {
            Some(a) => a != 0 && exists|i: int| 0 <= i < ips@.len() && ips@[i] == a && forall|j: int| 0 <= j < i ==> ips@[j] == 0,
            None => forall|j: int| 0 <= j < ips@.len() ==> ips@[j] == 0,
        },
{
    let mut i: usize = 0;
    while i < ips.len()
        invariant
            i <= ips.len(),
            forall|j: int| 0 <= j < i ==> ips@[j] == 0,
        decreases ips.len() - i,
    {
        if ips[i] != 0 {
            return Some(ips[i]);
        }
        i += 1;
    }
    None
}

/// The line printed for frame `i` at an address outside the executable:
/// `#i 0x<address> <shared library>`.
pub fn shared_library_line(i: usize, addr: u64) -> (r: String)
    ensures
        r@ == "#"@ + pad_right(dec_string(i as nat), ' ', 2) + " 0x"@ + pad_left(hex_string(addr as nat), '0', 16) + " <shared library>"@,
{
    let mut s = String::new();
    push_str(&mut s, "#");
    let n = dec_chars(i as u64);
    push_padded_right(&mut s, n.as_slice(), ' ', 2);
    push_str(&mut s, " 0x");
    let h = hex_chars(addr);
    push_padded_left(&mut s, h.as_slice(), '0', 16);
    push_str(&mut s, " <shared library>");
    s
}

/// The printed line for frame `i` at `addr` of a stack: inside the
/// executable, the frame `resolve` gave for its file offset, formatted;
/// outside it, the shared-library line.
pub open spec fn trace_line<F: Fn(u64) -> ResolvedFrame>(
    i: int,
    addr: u64,
    memory_range: Option<MemoryRange>,
    resolve: F,
    line: Seq<char>,
) -> bool {
    let (offset, in_executable) = adjusted(memory_range, addr);
    if in_executable {
        exists|rf: ResolvedFrame| #[trigger] call_ensures(resolve, (offset,), rf) && line == "      "@ + rf.spec_format(
            i as usize,
        )
    } else {
        line == "      "@ + "#"@ + pad_right(dec_string(i as nat), ' ', 2) + " 0x"@ + pad_left(
            hex_string(addr as nat),
            '0',
            16,
        ) + " <shared library>"@
    }
}

/// The printed lines of a stack trace: one per address before the first
/// null one, numbered from 0.
pub fn stack_trace_lines<F: Fn(u64) -> ResolvedFrame>(
    ips: &[u64],
    memory_range: Option<MemoryRange>,
    resolve: &F,
) -> (r: Vec<String>)
    requires
        forall|a: u64| call_requires(*resolve, (a,)),
    ensures
        r@.len() <= ips@.len(),
        forall|k: int| 0 <= k < r@.len() ==> ips@[k] != 0,
        r@.len() < ips@.len() ==> ips@[r@.len() as int] == 0,
        forall|k: int| 0 <= k < r@.len() ==> trace_line(k, ips@[k], memory_range, *resolve, (#[trigger] r@[k])@),
{
    let mut out: Vec<String> = Vec::new();
    let mut i: usize = 0;
    while i < ips.len() && ips[i] != 0
        invariant
            i <= ips.len(),
            out@.len() == i,
            forall|a: u64| call_requires(*resolve, (a,)),
            forall|k: int| 0 <= k < i ==> ips@[k] != 0,
            forall|k: int| 0 <= k < i ==> trace_line(k, ips@[k], memory_range, *resolve, (#[trigger] out@[k])@),
        decreases ips.len() - i,
    {
        let addr = ips[i];
        let (offset, in_executable) = adjust_address(memory_range, addr);
        let mut line = String::new();
        push_str(&mut line, "      ");
        if in_executable {
            let rf = resolve(offset);
            let text = rf.format(i);
            push_str(&mut line, text.as_str());
            proof {
                assert(call_ensures(*resolve, (offset,), rf));
                assert(line@ == "      "@ + rf.spec_format(i));
                assert(trace_line(i as int, addr, memory_range, *resolve, line@));
            }
        } else {
            let text = shared_library_line(i, addr);
            push_str(&mut line, text.as_str());
            assert(line@ =~= "      "@ + "#"@ + pad_right(dec_string(i as nat), ' ', 2) + " 0x"@ + pad_left(
                hex_string(addr as nat),
                '0',
                16,
            ) + " <shared library>"@);
            assert(trace_line(i as int, addr, memory_range, *resolve, line@));
        }
        let ghost before = out@;
        out.push(line);
        proof {
            assert forall|k: int| 0 <= k < i + 1 implies trace_line(k, ips@[k], memory_range, *resolve, (#[trigger] out@[k])@) by {
                if k < i {
                    assert(out@[k] == before[k]);
                }
            }
        }
        i += 1;
    }
    out
}

} // verus!
