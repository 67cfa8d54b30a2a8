//! Finding a process by name: parsing `/proc/<pid>/stat` lines, matching
//! command names and executable paths, and choosing among the candidates.
//! Reading `/proc` is left to the caller, which hands the contents in.
use crate::text::{
    all_digits, chars_of, contains_chars, contains_seq, dec_string, dec_value, find_char, first_index_of,
    has_char, is_digit, chars_eq, parse_u32_chars, push_char, push_dec, push_str, rfind_char,
    slice_chars, string_from_chars, unsigned_digits,
};
use vstd::prelude::*;

verus! {

/// A process that matched a lookup.
pub struct ProcessInfo {
    /// Process id.
    pub pid: i32,
    /// Path of the executable (`/proc/<pid>/exe`).
    pub exe_path: String,
    /// Command name from `/proc/<pid>/stat`.
    pub command: String,
}

/// Why a process lookup failed.
pub enum LookupError {
    /// A stat line without a well-formed `(comm)` field.
    InvalidStatFormat,
    /// No process matched the name.
    NoMatch { name: String },
    /// Several processes matched the name; their pids and commands.
    Ambiguous { name: String, candidates: Vec<(i32, String)> },
}

// =============================================================================
// SPECIFICATION
// =============================================================================

/// Index of the last `c` in `s`, if any.
pub open spec fn last_index_of(s: Seq<char>, c: char) -> Option<int> {
    if has_char(s, c) {
        Some(choose|i: int| 0 <= i < s.len() && s[i] == c && forall|j: int| i < j < s.len() ==> s[j] != c)
    } else {
        None
    }
}

/// The command name of a stat line: the text between the first `(` and the
/// last `)`, when both exist in that order.
pub open spec fn stat_comm(s: Seq<char>) -> Option<Seq<char>> {
    match (first_index_of(s, '('), last_index_of(s, ')')) {
        (Some(open), Some(close)) => if open < close {
            Some(s.subrange(open + 1, close))
        } else {
            None
        },
        _ => None,
    }
}

/// Start of the last `/`-separated segment of `s`.
#[verifier::opaque]
pub open spec fn last_segment_start(s: Seq<char>) -> int {
    match last_index_of(s, '/') {
        Some(j) => j + 1,
        None => 0,
    }
}

/// Final component of a path, as `Path::file_name` gives it on Unix:
/// trailing separators and `.` components are skipped, and a final `..` or a
/// path without a normal component has no file name.
#[verifier::opaque]
pub open spec fn file_name_spec(s: Seq<char>) -> Option<Seq<char>>
    decreases s.len(),
{
    if s.len() == 0 {
        None
    } else if s.last() == '/' {
        file_name_spec(s.drop_last())
    } else {
        let k = last_segment_start(s);
        let seg = s.subrange(k, s.len() as int);
        if seg == "."@ {
            if 0 <= k < s.len() {
                file_name_spec(s.subrange(0, k))
            } else {
                None
            }
        } else if seg == ".."@ {
            None
        } else {
            Some(seg)
        }
    }
}

/// Whether a process with the given command and executable path matches a
/// search pattern: exact match of the command or executable basename with
/// the pattern's basename, or the pattern occurring in either.
pub open spec fn matches_pattern(command: Seq<char>, exe_path: Seq<char>, pattern: Seq<char>) -> bool {
    let exe_base = match file_name_spec(exe_path) {
        Some(b) => b,
        None => seq![],
    };
    let pat_base = match file_name_spec(pattern) {
        Some(b) => b,
        None => pattern,
    };
    command == pat_base || exe_base == pat_base || contains_seq(command, pattern) || contains_seq(
        exe_base,
        pattern,
    )
}

/// Value of an optional sign followed by decimal digits, as `str::parse::<i32>` reads it.
pub open spec fn parse_i32_spec(s: Seq<char>) -> Option<i32> {
    if s.len() > 1 && s[0] == '-' {
        let d = s.drop_first();
        if all_digits(d) && dec_value(d) <= 0x8000_0000 {
            Some((0 - dec_value(d)) as i32)
        } else {
            None
        }
    } else {
        let d = unsigned_digits(s);
        if s.len() > 0 && all_digits(d) && dec_value(d) <= 0x7fff_ffff {
            Some(dec_value(d) as i32)
        } else {
            None
        }
    }
}

/// Decimal rendering of a signed value.
pub open spec fn signed_dec_string(n: int) -> Seq<char> {
    if n < 0 {
        seq!['-'] + dec_string((0 - n) as nat)
    } else {
        dec_string(n as nat)
    }
}

/// One `  <pid> (<command>)` line per candidate, joined with newlines.
pub open spec fn candidate_list(c: Seq<(i32, Seq<char>)>) -> Seq<char>
    decreases c.len(),
{
    if c.len() == 0 {
        seq![]
    } else if c.len() == 1 {
        "  "@ + signed_dec_string(c[0].0 as int) + " ("@ + c[0].1 + ")"@
    } else {
        candidate_list(c.drop_last()) + "\n"@ + candidate_list(seq![c.last()])
    }
}

/// Pid and command of each candidate, as the message lists them.
pub open spec fn candidates_view(c: Seq<(i32, String)>) -> Seq<(i32, Seq<char>)> {
    Seq::new(c.len(), |j: int| (c[j].0, c[j].1@))
}

/// Pid and command of each matching process.
pub open spec fn matches_view(m: Seq<ProcessInfo>) -> Seq<(i32, Seq<char>)> {
    Seq::new(m.len(), |j: int| (m[j].pid, m[j].command@))
}

impl LookupError {
    /// The error message for this failure.
    pub open spec fn spec_message(&self) -> Seq<char> {
        match self {
            LookupError::InvalidStatFormat => "Invalid stat format"@,
            LookupError::NoMatch { name } => "No process matching '"@ + name@
                + "' found.\nCheck running processes with: ps aux | grep "@ + name@,
            LookupError::Ambiguous { name, candidates } => "Multiple processes match '"@ + name@
                + "':\n"@ + candidate_list(candidates_view(candidates@))
                + "\n\nSpecify PID explicitly: hud --pid <PID>"@,
        }
    }
}

// =============================================================================
// IMPLEMENTATION
// =============================================================================

proof fn lemma_first_index(s: Seq<char>, c: char, i: int)
    requires
        0 <= i < s.len(),
        s[i] == c,
        forall|j: int| 0 <= j < i ==> s[j] != c,
    ensures
        first_index_of(s, c) == Some(i),
{
    let k = choose|k: int| 0 <= k < s.len() && s[k] == c && forall|j: int| 0 <= j < k ==> s[j] != c;
    assert(0 <= k < s.len() && s[k] == c && forall|j: int| 0 <= j < k ==> s[j] != c);
    if k < i {
        assert(s[k] != c);
    }
    if i < k {
        assert(s[i] != c);
    }
}

/// `i` is the last position of `c` in `s`.
pub proof fn lemma_last_index(s: Seq<char>, c: char, i: int)
    requires
        0 <= i < s.len(),
        s[i] == c,
        forall|j: int| i < j < s.len() ==> s[j] != c,
    ensures
        last_index_of(s, c) == Some(i),
{
    let k = choose|k: int| 0 <= k < s.len() && s[k] == c && forall|j: int| k < j < s.len() ==> s[j] != c;
    assert(0 <= k < s.len() && s[k] == c && forall|j: int| k < j < s.len() ==> s[j] != c);
    if k < i {
        assert(s[i] != c);
    }
    if i < k {
        assert(s[k] != c);
    }
}

/// Extracts the command name from a `/proc/<pid>/stat` line
/// (`pid (comm) state ...`); the name may itself contain parentheses.
pub fn extract_comm(stat_line: &str) -> (r: Result<String, LookupError>)
    ensures
        match r {
            Ok(comm) => stat_comm(stat_line@) == Some(comm@),
            Err(e) => stat_comm(stat_line@) is None && e is InvalidStatFormat,
        },
{
    let s = chars_of(stat_line);
    let open = match find_char(s.as_slice(), '(') {
        Some(i) => i,
        None => {
            return Err(LookupError::InvalidStatFormat);
        },
    };
    let close = match rfind_char(s.as_slice(), ')') {
        Some(i) => i,
        None => {
            return Err(LookupError::InvalidStatFormat);
        },
    };
    proof {
        lemma_first_index(s@, '(', open as int);
        lemma_last_index(s@, ')', close as int);
    }
    if open >= close {
        return Err(LookupError::InvalidStatFormat);
    }
    let inner = slice_chars(s.as_slice(), open + 1, close);
    Ok(string_from_chars(inner.as_slice()))
}

/// One step of `file_name_spec`.
proof fn lemma_file_name_unfold(s: Seq<char>)
    ensures
        file_name_spec(s) == (if s.len() == 0 {
            None
        } else if s.last() == '/' {
            file_name_spec(s.drop_last())
        } else {
            let k = last_segment_start(s);
            let seg = s.subrange(k, s.len() as int);
            if seg == "."@ {
                if 0 <= k < s.len() {
                    file_name_spec(s.subrange(0, k))
                } else {
                    None
                }
            } else if seg == ".."@ {
                None
            } else {
                Some(seg)
            }
        }),
{
    reveal_with_fuel(file_name_spec, 1);
}

/// When `c` occurs in `s`, `last_index_of` finds its last position.
pub proof fn lemma_last_index_exists(s: Seq<char>, c: char)
    requires
        has_char(s, c),
    ensures
        last_index_of(s, c) matches Some(j) && 0 <= j < s.len() && s[j] == c && forall|k: int|
            j < k < s.len() ==> s[k] != c,
    decreases s.len(),
{
    if s.last() == c {
        lemma_last_index(s, c, s.len() - 1);
    } else {
        let t = s.drop_last();
        let w = choose|i: int| 0 <= i < s.len() && s[i] == c;
        assert(t[w] == c);
        lemma_last_index_exists(t, c);
        let j = last_index_of(t, c)->0;
        assert(t[j] == s[j]);
        assert forall|k: int| j < k < s.len() implies s[k] != c by {
            if k < s.len() - 1 {
                assert(t[k] == s[k]);
            }
        }
        lemma_last_index(s, c, j);
    }
}

/// Start of the last `/`-separated segment of `path[..end]`.
fn segment_start(path: &[char], end: usize) -> (start: usize)
    requires
        end <= path.len(),
    ensures
        start == last_segment_start(path@.subrange(0, end as int)),
        start <= end,
{
    let prefix = slice_chars(path, 0, end);
    proof {
        reveal(last_segment_start);
    }
    match rfind_char(prefix.as_slice(), '/') {
        Some(j) => {
            proof {
                lemma_last_index(prefix@, '/', j as int);
            }
            j + 1
        },
        None => 0,
    }
}

/// Whether a segment is the single component `s` of one or two dots.
fn is_dots(seg: &Vec<char>, n: usize) -> (r: bool)
    requires
        n == 1 || n == 2,
    ensures
        n == 1 ==> (r <==> seg@ == "."@),
        n == 2 ==> (r <==> seg@ == ".."@),
{
    proof {
        reveal_strlit(".");
        reveal_strlit("..");
    }
    let r = seg.len() == n && seg[0] == '.' && (n == 1 || seg[1] == '.');
    proof {
        if r && n == 1 {
            assert(seg@ =~= "."@);
        }
        if r && n == 2 {
            assert(seg@ =~= ".."@);
        }
    }
    r
}

/// Final component of `path[..end]`.
fn file_name_upto(path: &[char], end: usize) -> (r: Option<Vec<char>>)
    requires
        end <= path.len(),
    ensures
        match r {
            Some(v) => file_name_spec(path@.subrange(0, end as int)) == Some(v@),
            None => file_name_spec(path@.subrange(0, end as int)) is None,
        },
    decreases end,
{
    let ghost cur = path@.subrange(0, end as int);
    proof {
        lemma_file_name_unfold(cur);
    }
    if end == 0 {
        return None;
    }
    if path[end - 1] == '/' {
        assert(cur.drop_last() =~= path@.subrange(0, end - 1));
        return file_name_upto(path, end - 1);
    }
    let start = segment_start(path, end);
    let seg = slice_chars(path, start, end);
    assert(seg@ =~= cur.subrange(start as int, cur.len() as int));
    if is_dots(&seg, 1) {
        proof {
            reveal_strlit(".");
        }
        assert(seg@.len() == 1);
        assert(cur.subrange(0, start as int) =~= path@.subrange(0, start as int));
        return file_name_upto(path, start);
    }
    if is_dots(&seg, 2) {
        return None;
    }
    Some(seg)
}

/// Final component of a path (`Path::file_name`).
pub fn file_name(path: &[char]) -> (r: Option<Vec<char>>)
    ensures
        match r {
            Some(v) => file_name_spec(path@) == Some(v@),
            None => file_name_spec(path@) is None,
        },
{
    assert(path@.subrange(0, path.len() as int) =~= path@);
    file_name_upto(path, path.len())
}

/// Whether a process matches the search pattern by command name or
/// executable basename, exactly or by substring.
pub fn is_match(command: &str, exe_path: &str, pattern: &str) -> (r: bool)
    ensures
        r == matches_pattern(command@, exe_path@, pattern@),
{
    let cmd = chars_of(command);
    let exe = chars_of(exe_path);
    let pat = chars_of(pattern);
    let exe_base: Vec<char> = match file_name(exe.as_slice()) {
        Some(b) => b,
        None => Vec::new(),
    };
    let pat_base: Vec<char> = match file_name(pat.as_slice()) {
        Some(b) => b,
        None => chars_of(pattern),
    };
    assert(exe_base@ == (match file_name_spec(exe_path@) {
        Some(b) => b,
        None => Seq::<char>::empty(),
    }));
    chars_eq(cmd.as_slice(), pat_base.as_slice()) || chars_eq(exe_base.as_slice(), pat_base.as_slice()) || contains_chars(
        cmd.as_slice(),
        pat.as_slice(),
    ) || contains_chars(exe_base.as_slice(), pat.as_slice())
}

/// Parses a signed decimal process id (`str::parse::<i32>`).
pub fn parse_i32_chars(s: &[char]) -> (r: Option<i32>)
    ensures
        r == parse_i32_spec(s@),
{
    if s.len() > 1 && s[0] == '-' {
        let d = slice_chars(s, 1, s.len());
        assert(d@ =~= s@.drop_first());
        match parse_u32_chars(d.as_slice()) {
            Some(v) => {
                proof {
                    assert(unsigned_digits(d@) == d@ || (d@.len() > 1 && d@[0] == '+'));
                }
                if d.len() > 1 && d[0] == '+' {
                    assert(!is_digit(d@[0]));
                    return None;
                }
                if v <= 0x8000_0000 {
                    Some((0i64 - v as i64) as i32)
                } else {
                    None
                }
            },
            None => {
                proof {
                    if all_digits(d@) && dec_value(d@) <= 0x8000_0000 {
                        if d@.len() > 1 && d@[0] == '+' {
                            assert(is_digit(d@[0]));
                        }
                        assert(unsigned_digits(d@) == d@);
                    }
                }
                None
            },
        }
    } else {
        match parse_u32_chars(s) {
            Some(v) => if v <= 0x7fff_ffff {
                Some(v as i32)
            } else {
                None
            },
            None => None,
        }
    }
}

/// Considers one `/proc` entry: its directory name must be a pid and its stat
/// line must hold a command name; the process is a candidate when it matches
/// the pattern.
pub fn process_candidate(dir_name: &str, exe_path: &str, stat_content: &str, pattern: &str) -> (r:
    Option<ProcessInfo>)
    ensures
        match r {
            Some(p) => parse_i32_spec(dir_name@) == Some(p.pid) && stat_comm(stat_content@) == Some(
                p.command@,
            ) && p.exe_path@ == exe_path@ && matches_pattern(p.command@, exe_path@, pattern@),
            None => parse_i32_spec(dir_name@) is None || stat_comm(stat_content@) is None || !matches_pattern(
                stat_comm(stat_content@).unwrap(),
                exe_path@,
                pattern@,
            ),
        },
{
    let name = chars_of(dir_name);
    let pid = match parse_i32_chars(name.as_slice()) {
        Some(p) => p,
        None => {
            return None;
        },
    };
    let command = match extract_comm(stat_content) {
        Ok(c) => c,
        Err(_) => {
            return None;
        },
    };
    if is_match(command.as_str(), exe_path, pattern) {
        Some(ProcessInfo { pid, exe_path: exe_path.to_string(), command })
    } else {
        None
    }
}

/// Appends the decimal rendering of a signed value.
pub fn push_signed_dec(s: &mut String, n: i32)
    ensures
        final(s)@ == old(s)@ + signed_dec_string(n as int),
{
    if n < 0 {
        push_char(s, '-');
        let m: u64 = (0i64 - n as i64) as u64;
        push_dec(s, m);
        assert(old(s)@ + signed_dec_string(n as int) =~= old(s)@.push('-') + dec_string(m as nat));
    } else {
        push_dec(s, n as u64);
    }
}

impl LookupError {
    /// The error message for this failure.
    pub fn message(&self) -> (m: String)
        ensures
            m@ == self.spec_message(),
    {
        let mut m = String::new();
        match self {
            LookupError::InvalidStatFormat => {
                push_str(&mut m, "Invalid stat format");
            },
            LookupError::NoMatch { name } => {
                push_str(&mut m, "No process matching '");
                push_str(&mut m, name.as_str());
                push_str(&mut m, "' found.\nCheck running processes with: ps aux | grep ");
                push_str(&mut m, name.as_str());
            },
            LookupError::Ambiguous { name, candidates } => {
                push_str(&mut m, "Multiple processes match '");
                push_str(&mut m, name.as_str());
                push_str(&mut m, "':\n");
                let ghost start = m@;
                let ghost cs = candidates_view(candidates@);
                let mut i: usize = 0;
                while i < candidates.len()
                    invariant
                        i <= candidates.len(),
                        cs == candidates_view(candidates@),
                        m@ == start + candidate_list(cs.subrange(0, i as int)),
                    decreases candidates.len() - i,
                {
                    let ghost before = m@;
                    if i > 0 {
                        push_str(&mut m, "\n");
                    }
                    push_str(&mut m, "  ");
                    push_signed_dec(&mut m, candidates[i].0);
                    push_str(&mut m, " (");
                    push_str(&mut m, candidates[i].1.as_str());
                    push_str(&mut m, ")");
                    proof {
                        let pre = cs.subrange(0, i as int);
                        let next = cs.subrange(0, i + 1);
                        assert(next.drop_last() =~= pre);
                        assert(next.last() == cs[i as int]);
                        let one = seq![cs[i as int]];
                        assert(one.len() == 1);
                        if i == 0 {
                            assert(next =~= one);
                            assert(m@ =~= start + candidate_list(next));
                        } else {
                            assert(m@ =~= start + candidate_list(pre) + "\n"@ + candidate_list(one));
                            assert(m@ =~= start + candidate_list(next));
                        }
                    }
                    i += 1;
                }
                assert(cs.subrange(0, candidates.len() as int) =~= cs);
                push_str(&mut m, "\n\nSpecify PID explicitly: hud --pid <PID>");
            },
        }
        m
    }
}

/// Chooses the result of a lookup among the matching processes: exactly one
/// match is the answer; none or several are errors naming the pattern.
pub fn select_process(matches: Vec<ProcessInfo>, name: &str) -> (r: Result<ProcessInfo, LookupError>)
    ensures
        matches@.len() == 1 ==> r is Ok && r->Ok_0 == matches@[0],
        matches@.len() == 0 ==> r is Err && r->Err_0 is NoMatch && r->Err_0->NoMatch_name@ == name@,
        matches@.len() > 1 ==> r is Err && r->Err_0 is Ambiguous && r->Err_0->Ambiguous_name@
            == name@ && candidates_view(r->Err_0->Ambiguous_candidates@)
            == matches_view(matches@),
{
    let mut matches = matches;
    if matches.len() == 0 {
        return Err(LookupError::NoMatch { name: name.to_string() });
    }
    if matches.len() == 1 {
        let p = matches.remove(0);
        return Ok(p);
    }
    let mut candidates: Vec<(i32, String)> = Vec::new();
    let mut i: usize = 0;
    while i < matches.len()
        invariant
            i <= matches.len(),
            candidates.len() == i,
            forall|j: int|
                0 <= j < i ==> #[trigger] candidates@[j].0 == matches@[j].pid && candidates@[j].1@
                    == matches@[j].command@,
        decreases matches.len() - i,
    {
        let c = (matches[i].pid, matches[i].command.clone());
        candidates.push(c);
        i += 1;
    }
    proof {
        assert forall|j: int| 0 <= j < candidates.len() implies candidates_view(candidates@)[j]
            == matches_view(matches@)[j] by {
            assert(candidates@[j].0 == matches@[j].pid);
        }
        assert(candidates_view(candidates@) =~= matches_view(matches@));
    }
    Err(LookupError::Ambiguous { name: name.to_string(), candidates })
}

} // verus!
