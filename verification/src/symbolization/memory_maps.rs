//! The address range a binary occupies in a process, read from the text of
//! `/proc/<pid>/maps`: the lowest start and the highest end over every
//! mapping whose line names the binary.
use crate::text::{
    chars_of, contains_chars, contains_seq, parse_hex_u64_chars, parse_hex_u64_spec, push_str,
    split_char_chars, split_pieces, split_whitespace_chars, text_lines, lines_chars, ws_tokens,
};
use vstd::prelude::*;

verus! {

/// Memory range of a loaded binary in a process's address space.
#[derive(Clone, Copy, Debug, PartialEq, Eq, Structural)]
pub struct MemoryRange {
    /// First address of the range.
    pub start: u64,
    /// One past the last address of the range.
    pub end: u64,
}

impl MemoryRange {
    /// Whether `addr` lies in `[start, end)`.
    pub open spec fn spec_contains(&self, addr: u64) -> bool {
        self.start <= addr && addr < self.end
    }

    /// Whether `addr` lies in the range.
    #[verifier::when_used_as_spec(spec_contains)]
    pub fn contains(&self, addr: u64) -> (r: bool)
        ensures
            r == self.spec_contains(addr),
    {
        addr >= self.start && addr < self.end
    }
}

/// Why no range could be read from the maps.
#[derive(Debug, PartialEq, Eq)]
pub enum MapsError {
    /// A matching line whose range start is not hexadecimal.
    BadRangeStart,
    /// A matching line whose range end is not hexadecimal.
    BadRangeEnd,
    /// No line names the binary with a well-formed range.
    NotFound { binary: String },
}

/// What one line of the maps contributes.
pub enum MapsLine {
    /// Not a mapping of the binary, or not in `start-end ...` form.
    Skip,
    /// A mapping of the binary over `[start, end)`.
    Range(u64, u64),
    /// A mapping of the binary whose start does not parse.
    BadStart,
    /// A mapping of the binary whose end does not parse.
    BadEnd,
}

// =============================================================================
// SPECIFICATION
// =============================================================================

/// What a maps line contributes for the binary `binary`.
pub open spec fn line_contribution(line: Seq<char>, binary: Seq<char>) -> MapsLine {
    if !contains_seq(line, binary) {
        MapsLine::Skip
    } else {
        let parts = ws_tokens(line);
        if parts.len() < 3 {
            MapsLine::Skip
        } else {
            let bounds = split_pieces(parts[0], '-');
            if bounds.len() != 2 {
                MapsLine::Skip
            } else {
                match parse_hex_u64_spec(bounds[0]) {
                    None => MapsLine::BadStart,
                    Some(start) => match parse_hex_u64_spec(bounds[1]) {
                        None => MapsLine::BadEnd,
                        Some(end) => MapsLine::Range(start, end),
                    },
                }
            }
        }
    }
}

/// The range so far widened to cover `[start, end)`.
pub open spec fn widen(acc: Option<(u64, u64)>, start: u64, end: u64) -> (u64, u64) {
    match acc {
        None => (start, end),
        Some((s, e)) => (
            if start < s {
                start
            } else {
                s
            },
            if end > e {
                end
            } else {
                e
            },
        ),
    }
}

/// Scanning the lines in order: the first bad number stops the scan with an
/// error; otherwise the covering range of all mappings of the binary, if any.
pub open spec fn scan_lines(lines: Seq<Seq<char>>, binary: Seq<char>) -> Result<
    Option<(u64, u64)>,
    MapsError,
>
    decreases lines.len(),
{
    if lines.len() == 0 {
        Ok(None)
    } else {
        match scan_lines(lines.drop_last(), binary) {
            Err(e) => Err(e),
            Ok(acc) => match line_contribution(lines.last(), binary) {
                MapsLine::Skip => Ok(acc),
                MapsLine::BadStart => Err(MapsError::BadRangeStart),
                MapsLine::BadEnd => Err(MapsError::BadRangeEnd),
                MapsLine::Range(start, end) => Ok(Some(widen(acc, start, end))),
            },
        }
    }
}

impl MapsError {
    /// The message for this failure.
    pub open spec fn spec_message(&self) -> Seq<char> {
        match self {
            MapsError::BadRangeStart => "Failed to parse range start"@,
            MapsError::BadRangeEnd => "Failed to parse range end"@,
            MapsError::NotFound { binary } => "Could not find memory range for "@ + binary@,
        }
    }
}

// =============================================================================
// IMPLEMENTATION
// =============================================================================

/// What one line of the maps contributes for the binary.
pub fn classify_maps_line(line: &[char], binary: &[char]) -> (r: MapsLine)
    ensures
        r == line_contribution(line@, binary@),
{
    if !contains_chars(line, binary) {
        return MapsLine::Skip;
    }
    let parts = split_whitespace_chars(line);
    assert(parts@.len() == ws_tokens(line@).len());
    if parts.len() < 3 {
        return MapsLine::Skip;
    }
    assert(parts@[0]@ == ws_tokens(line@)[0]);
    let bounds = split_char_chars(parts[0].as_slice(), '-');
    let ghost b = split_pieces(parts@[0]@, '-');
    assert(bounds@.len() == b.len());
    if bounds.len() != 2 {
        return MapsLine::Skip;
    }
    assert(bounds@[0]@ == b[0]);
    assert(bounds@[1]@ == b[1]);
    match parse_hex_u64_chars(bounds[0].as_slice()) {
        None => MapsLine::BadStart,
        Some(start) => match parse_hex_u64_chars(bounds[1].as_slice()) {
            None => MapsLine::BadEnd,
            Some(end) => MapsLine::Range(start, end),
        },
    }
}

/// Once the scan of a prefix of the lines fails, the scan of all of them
/// fails the same way.
proof fn lemma_scan_error_persists(lines: Seq<Seq<char>>, binary: Seq<char>, k: int)
    requires
        0 <= k <= lines.len(),
        scan_lines(lines.subrange(0, k), binary) is Err,
    ensures
        scan_lines(lines, binary) == scan_lines(lines.subrange(0, k), binary),
    decreases lines.len(),
{
    if k == lines.len() {
        assert(lines.subrange(0, k) =~= lines);
    } else {
        let pre = lines.drop_last();
        assert(pre.subrange(0, k) =~= lines.subrange(0, k));
        lemma_scan_error_persists(pre, binary, k);
    }
}

/// Reads the range of `binary_path` from the text of `/proc/<pid>/maps`.
pub fn parse_memory_maps_content(maps: &str, binary_path: &str) -> (r: Result<
    MemoryRange,
    MapsError,
>)
    ensures
        match scan_lines(text_lines(maps@), binary_path@) {
            Err(e) => r == Err::<MemoryRange, MapsError>(e),
            Ok(None) => (r matches Err(MapsError::NotFound { binary }) && binary@ == binary_path@),
            Ok(Some((start, end))) => r == Ok::<MemoryRange, MapsError>(
                MemoryRange { start, end },
            ),
        },
{
    let text = chars_of(maps);
    let binary = chars_of(binary_path);
    let lines = lines_chars(text.as_slice());
    let ghost ls = text_lines(maps@);
    assert(lines@.len() == ls.len());
    let mut acc: Option<(u64, u64)> = None;
    let mut i: usize = 0;
    while i < lines.len()
        invariant
            i <= lines.len(),
            ls == text_lines(maps@),
            lines@.len() == ls.len(),
            forall|j: int| 0 <= j < lines@.len() ==> #[trigger] lines@[j]@ == ls[j],
            binary@ == binary_path@,
            scan_lines(ls.subrange(0, i as int), binary_path@) == Ok::<
                Option<(u64, u64)>,
                MapsError,
            >(acc),
        decreases lines.len() - i,
    {
        let ghost pre = ls.subrange(0, i as int);
        let ghost next = ls.subrange(0, i + 1);
        assert(next.drop_last() =~= pre);
        assert(next.last() == lines@[i as int]@);
        match classify_maps_line(lines[i].as_slice(), binary.as_slice()) {
            MapsLine::Skip => {},
            MapsLine::BadStart => {
                proof {
                    assert(line_contribution(next.last(), binary_path@) is BadStart);
                    assert(scan_lines(next, binary_path@) == Err::<Option<(u64, u64)>, MapsError>(
                        MapsError::BadRangeStart,
                    ));
                    lemma_scan_error_persists(ls, binary_path@, i + 1);
                }
                return Err(MapsError::BadRangeStart);
            },
            MapsLine::BadEnd => {
                proof {
                    assert(line_contribution(next.last(), binary_path@) is BadEnd);
                    assert(scan_lines(next, binary_path@) == Err::<Option<(u64, u64)>, MapsError>(
                        MapsError::BadRangeEnd,
                    ));
                    lemma_scan_error_persists(ls, binary_path@, i + 1);
                }
                return Err(MapsError::BadRangeEnd);
            },
            MapsLine::Range(start, end) => {
                acc = match acc {
                    None => Some((start, end)),
                    Some((s, e)) => Some(
                        (if start < s {
                            start
                        } else {
                            s
                        }, if end > e {
                            end
                        } else {
                            e
                        }),
                    ),
                };
            },
        }
        i += 1;
    }
    assert(ls.subrange(0, lines.len() as int) =~= ls);
    match acc {
        Some((start, end)) => Ok(MemoryRange { start, end }),
        None => Err(MapsError::NotFound { binary: binary_path.to_string() }),
    }
}

impl MapsError {
    /// The message for this failure.
    pub fn message(&self) -> (m: String)
        ensures
            m@ == self.spec_message(),
    {
        let mut m = String::new();
        match self {
            MapsError::BadRangeStart => push_str(&mut m, "Failed to parse range start"),
            MapsError::BadRangeEnd => push_str(&mut m, "Failed to parse range end"),
            MapsError::NotFound { binary } => {
                push_str(&mut m, "Could not find memory range for ");
                push_str(&mut m, binary.as_str());
            },
        }
        m
    }
}

// =============================================================================
// LAWS
// =============================================================================

/// Every well-formed mapping of the binary lies inside the range read from
/// the maps.
pub proof fn lemma_range_covers_mappings(lines: Seq<Seq<char>>, binary: Seq<char>, k: int)
    requires
        0 <= k < lines.len(),
        scan_lines(lines, binary) is Ok,
        line_contribution(lines[k], binary) is Range,
    ensures
        scan_lines(lines, binary)->Ok_0 matches Some((start, end)) && start
            <= line_contribution(lines[k], binary)->Range_0 && line_contribution(
            lines[k],
            binary,
        )->Range_1 <= end,
    decreases lines.len(),
{
    let pre = lines.drop_last();
    if k == lines.len() - 1 {
    } else {
        assert(pre[k] == lines[k]);
        lemma_range_covers_mappings(pre, binary, k);
    }
}

} // verus!
