//! Frame origin classification: telling user code apart from libraries.
//!
//! Rust links its dependencies statically, so an address range alone cannot
//! tell user code from library code. Frames are classified by, in order:
//! the unresolved-name markers, the source file path (when debug info is
//! available), the module prefix of the function name, and finally whether
//! the address lies in the main executable.
use crate::text::{chars_of, contains_chars, contains_seq, is_prefix, starts_with_chars};
use vstd::prelude::*;

verus! {

/// Origin of a stack frame.
#[derive(Debug, Clone, Copy, PartialEq, Eq, Structural)]
pub enum FrameOrigin {
    /// The application's own code.
    UserCode,
    /// Rust standard library (std, core, alloc).
    StdLib,
    /// Async runtime libraries (tokio, async-std, futures, ...).
    RuntimeLib,
    /// Other third-party crates.
    ThirdParty,
    /// Origin could not be determined.
    Unknown,
}

impl Default for FrameOrigin {
    fn default() -> (r: Self)
        ensures
            r == FrameOrigin::Unknown,
    {
        FrameOrigin::Unknown
    }
}

impl FrameOrigin {
    /// Whether the frame is the application's own code.
    pub open spec fn spec_is_user_code(&self) -> bool {
        *self == FrameOrigin::UserCode
    }

    /// Whether the frame is the application's own code.
    #[verifier::when_used_as_spec(spec_is_user_code)]
    pub fn is_user_code(&self) -> (r: bool)
        ensures
            r == (*self == FrameOrigin::UserCode),
    {
        match self {
            FrameOrigin::UserCode => true,
            _ => false,
        }
    }
}

// =============================================================================
// SPECIFICATION
// =============================================================================

/// Names that mark a frame that could not be symbolized.
pub open spec fn is_unresolved_name(function: Seq<char>) -> bool {
    function == "<unknown>"@ || is_prefix("0x"@, function) || is_prefix("<library>"@, function)
}

/// Standard library module prefixes.
pub open spec fn std_prefixes() -> Seq<Seq<char>> {
    seq!["std::"@, "core::"@, "alloc::"@]
}

/// Async runtime crate prefixes.
pub open spec fn runtime_prefixes() -> Seq<Seq<char>> {
    seq![
        "tokio::"@,
        "async_std::"@,
        "futures::"@,
        "futures_util::"@,
        "futures_core::"@,
        "mio::"@,
        "hyper::"@,
        "hyper_util::"@,
        "tower::"@,
        "tower_service::"@,
    ]
}

/// Common third-party crate prefixes.
pub open spec fn third_party_prefixes() -> Seq<Seq<char>> {
    seq![
        "serde::"@,
        "serde_json::"@,
        "tracing::"@,
        "log::"@,
        "regex::"@,
        "crossbeam::"@,
        "rayon::"@,
        "parking_lot::"@,
        "bcrypt::"@,
        "blowfish::"@,
        "flate2::"@,
        "axum::"@,
        "http::"@,
        "bytes::"@,
        "hashbrown::"@,
        "ahash::"@,
    ]
}

/// Path fragments that identify runtime crates inside the cargo registry.
pub open spec fn runtime_crate_patterns() -> Seq<Seq<char>> {
    seq![
        "/tokio-"@,
        "/async-std-"@,
        "/futures-"@,
        "/futures-util-"@,
        "/futures-core-"@,
        "/mio-"@,
        "/hyper-"@,
        "/hyper-util-"@,
        "/tower-"@,
        "/axum-"@,
        "/actix-"@,
        "/warp-"@,
    ]
}

/// Some entry of `prefixes` is a prefix of `s`.
pub open spec fn has_any_prefix(s: Seq<char>, prefixes: Seq<Seq<char>>) -> bool {
    exists|i: int| 0 <= i < prefixes.len() && is_prefix(#[trigger] prefixes[i], s)
}

/// Some entry of `patterns` occurs in `s`.
pub open spec fn contains_any(s: Seq<char>, patterns: Seq<Seq<char>>) -> bool {
    exists|i: int| 0 <= i < patterns.len() && contains_seq(s, #[trigger] patterns[i])
}

/// Classification by module prefix of the function name.
pub open spec fn prefix_origin(function: Seq<char>) -> Option<FrameOrigin> {
    if has_any_prefix(function, std_prefixes()) {
        Some(FrameOrigin::StdLib)
    } else if has_any_prefix(function, runtime_prefixes()) {
        Some(FrameOrigin::RuntimeLib)
    } else if has_any_prefix(function, third_party_prefixes()) {
        Some(FrameOrigin::ThirdParty)
    } else {
        None
    }
}

/// Classification by source file path.
pub open spec fn path_origin(path: Seq<char>) -> FrameOrigin {
    if contains_seq(path, ".cargo/registry/"@) || contains_seq(path, ".cargo\\registry\\"@) {
        if contains_any(path, runtime_crate_patterns()) {
            FrameOrigin::RuntimeLib
        } else {
            FrameOrigin::ThirdParty
        }
    } else if contains_seq(path, ".rustup/toolchains/"@) || contains_seq(
        path,
        ".rustup\\toolchains\\"@,
    ) {
        FrameOrigin::StdLib
    } else if contains_seq(path, "/rustc/"@) || contains_seq(path, "\\rustc\\"@) {
        FrameOrigin::StdLib
    } else if is_prefix("/usr/"@, path) || is_prefix("/lib/"@, path) {
        FrameOrigin::ThirdParty
    } else {
        FrameOrigin::UserCode
    }
}

/// The origin assigned to a frame with the given name, file and location.
pub open spec fn frame_origin(
    function: Seq<char>,
    file: Option<Seq<char>>,
    in_executable: bool,
) -> FrameOrigin {
    if is_unresolved_name(function) {
        FrameOrigin::Unknown
    } else {
        match file {
            Some(path) => path_origin(path),
            None => match prefix_origin(function) {
                Some(origin) => origin,
                None => if in_executable {
                    FrameOrigin::UserCode
                } else {
                    FrameOrigin::Unknown
                },
            },
        }
    }
}

/// View of an optional string slice.
pub open spec fn opt_str_view(s: Option<&str>) -> Option<Seq<char>> {
    match s {
        Some(t) => Some(t@),
        None => None,
    }
}

// =============================================================================
// IMPLEMENTATION
// =============================================================================

fn chars_starts_with_str(s: &Vec<char>, p: &str) -> (r: bool)
    ensures
        r == is_prefix(p@, s@),
{
    let pv = chars_of(p);
    starts_with_chars(s.as_slice(), pv.as_slice())
}

fn chars_contains_str(s: &Vec<char>, p: &str) -> (r: bool)
    ensures
        r == contains_seq(s@, p@),
{
    let pv = chars_of(p);
    contains_chars(s.as_slice(), pv.as_slice())
}

fn has_std_prefix(f: &Vec<char>) -> (r: bool)
    ensures
        r == has_any_prefix(f@, std_prefixes()),
{
    let ghost ps = std_prefixes();
    let r = chars_starts_with_str(f, "std::") || chars_starts_with_str(f, "core::")
        || chars_starts_with_str(f, "alloc::");
    proof {
        if r {
            if is_prefix("std::"@, f@) {
                assert(is_prefix(ps[0], f@));
            } else if is_prefix("core::"@, f@) {
                assert(is_prefix(ps[1], f@));
            } else {
                assert(is_prefix(ps[2], f@));
            }
        } else {
            assert forall|i: int| 0 <= i < ps.len() implies !is_prefix(#[trigger] ps[i], f@) by {
                if i == 0 {
                } else if i == 1 {
                } else {
                }
            }
        }
    }
    r
}

#[verifier::rlimit(50)]
fn has_runtime_prefix(f: &Vec<char>) -> (r: bool)
    ensures
        r == has_any_prefix(f@, runtime_prefixes()),
{
    let ghost ps = runtime_prefixes();
    let checks = [
        chars_starts_with_str(f, "tokio::"),
        chars_starts_with_str(f, "async_std::"),
        chars_starts_with_str(f, "futures::"),
        chars_starts_with_str(f, "futures_util::"),
        chars_starts_with_str(f, "futures_core::"),
        chars_starts_with_str(f, "mio::"),
        chars_starts_with_str(f, "hyper::"),
        chars_starts_with_str(f, "hyper_util::"),
        chars_starts_with_str(f, "tower::"),
        chars_starts_with_str(f, "tower_service::"),
    ];
    assert forall|i: int| 0 <= i < 10 implies checks@[i] == is_prefix(#[trigger] ps[i], f@) by {}
    any_true(&checks, Ghost(ps), Ghost(f@))
}

#[verifier::rlimit(50)]
fn has_third_party_prefix(f: &Vec<char>) -> (r: bool)
    ensures
        r == has_any_prefix(f@, third_party_prefixes()),
{
    let ghost ps = third_party_prefixes();
    let checks = [
        chars_starts_with_str(f, "serde::"),
        chars_starts_with_str(f, "serde_json::"),
        chars_starts_with_str(f, "tracing::"),
        chars_starts_with_str(f, "log::"),
        chars_starts_with_str(f, "regex::"),
        chars_starts_with_str(f, "crossbeam::"),
        chars_starts_with_str(f, "rayon::"),
        chars_starts_with_str(f, "parking_lot::"),
        chars_starts_with_str(f, "bcrypt::"),
        chars_starts_with_str(f, "blowfish::"),
        chars_starts_with_str(f, "flate2::"),
        chars_starts_with_str(f, "axum::"),
        chars_starts_with_str(f, "http::"),
        chars_starts_with_str(f, "bytes::"),
        chars_starts_with_str(f, "hashbrown::"),
        chars_starts_with_str(f, "ahash::"),
    ];
    assert forall|i: int| 0 <= i < 16 implies checks@[i] == is_prefix(#[trigger] ps[i], f@) by {}
    any_true(&checks, Ghost(ps), Ghost(f@))
}

/// Whether any of the precomputed prefix checks succeeded.
fn any_true<const N: usize>(
    checks: &[bool; N],
    Ghost(ps): Ghost<Seq<Seq<char>>>,
    Ghost(f): Ghost<Seq<char>>,
) -> (r: bool)
    requires
        ps.len() == N,
        forall|i: int| 0 <= i < N ==> checks@[i] == is_prefix(#[trigger] ps[i], f),
    ensures
        r == has_any_prefix(f, ps),
{
    let mut i: usize = 0;
    while i < N
        invariant
            i <= N,
            ps.len() == N,
            forall|j: int| 0 <= j < N ==> checks@[j] == is_prefix(#[trigger] ps[j], f),
            forall|j: int| 0 <= j < i ==> !is_prefix(#[trigger] ps[j], f),
        decreases N - i,
    {
        if checks[i] {
            assert(is_prefix(ps[i as int], f));
            return true;
        }
        i += 1;
    }
    false
}

/// Classification by the module prefix of a function name.
pub fn classify_by_function_prefix(function: &str) -> (r: Option<FrameOrigin>)
    ensures
        r == prefix_origin(function@),
{
    let f = chars_of(function);
    if has_std_prefix(&f) {
        Some(FrameOrigin::StdLib)
    } else if has_runtime_prefix(&f) {
        Some(FrameOrigin::RuntimeLib)
    } else if has_third_party_prefix(&f) {
        Some(FrameOrigin::ThirdParty)
    } else {
        None
    }
}

/// Whether a cargo-registry path belongs to a known runtime crate.
#[verifier::rlimit(50)]
pub fn is_runtime_path(path: &str) -> (r: bool)
    ensures
        r == contains_any(path@, runtime_crate_patterns()),
{
    let p = chars_of(path);
    let ghost ps = runtime_crate_patterns();
    let checks = [
        chars_contains_str(&p, "/tokio-"),
        chars_contains_str(&p, "/async-std-"),
        chars_contains_str(&p, "/futures-"),
        chars_contains_str(&p, "/futures-util-"),
        chars_contains_str(&p, "/futures-core-"),
        chars_contains_str(&p, "/mio-"),
        chars_contains_str(&p, "/hyper-"),
        chars_contains_str(&p, "/hyper-util-"),
        chars_contains_str(&p, "/tower-"),
        chars_contains_str(&p, "/axum-"),
        chars_contains_str(&p, "/actix-"),
        chars_contains_str(&p, "/warp-"),
    ];
    let mut i: usize = 0;
    while i < 12
        invariant
            i <= 12,
            ps == runtime_crate_patterns(),
            p@ == path@,
            forall|j: int| 0 <= j < 12 ==> checks@[j] == contains_seq(p@, #[trigger] ps[j]),
            forall|j: int| 0 <= j < i ==> !contains_seq(p@, #[trigger] ps[j]),
        decreases 12 - i,
    {
        if checks[i] {
            assert(contains_seq(p@, ps[i as int]));
            return true;
        }
        i += 1;
    }
    false
}

fn classify_path(path: &str) -> (r: FrameOrigin)
    ensures
        r == path_origin(path@),
{
    let p = chars_of(path);
    if chars_contains_str(&p, ".cargo/registry/") || chars_contains_str(&p, ".cargo\\registry\\") {
        if is_runtime_path(path) {
            return FrameOrigin::RuntimeLib;
        }
        return FrameOrigin::ThirdParty;
    }
    if chars_contains_str(&p, ".rustup/toolchains/") || chars_contains_str(
        &p,
        ".rustup\\toolchains\\",
    ) {
        return FrameOrigin::StdLib;
    }
    if chars_contains_str(&p, "/rustc/") || chars_contains_str(&p, "\\rustc\\") {
        return FrameOrigin::StdLib;
    }
    if chars_starts_with_str(&p, "/usr/") || chars_starts_with_str(&p, "/lib/") {
        return FrameOrigin::ThirdParty;
    }
    FrameOrigin::UserCode
}

/// Whether a function name marks a frame that could not be symbolized.
pub fn is_unresolved(function: &str) -> (r: bool)
    ensures
        r == is_unresolved_name(function@),
{
    let f = chars_of(function);
    let u = chars_of("<unknown>");
    let is_unknown = f.len() == u.len() && starts_with_chars(f.as_slice(), u.as_slice());
    proof {
        if is_unknown {
            assert(f@.subrange(0, u@.len() as int) =~= f@);
        }
        if f@ == u@ {
            assert(f@.subrange(0, u@.len() as int) =~= f@);
        }
    }
    is_unknown || chars_starts_with_str(&f, "0x") || chars_starts_with_str(&f, "<library>")
}

/// Classifies a stack frame from its function name, source file (if debug
/// info was available) and whether its address lies in the main executable.
pub fn classify_frame(function: &str, file: Option<&str>, in_executable: bool) -> (r: FrameOrigin)
    ensures
        r == frame_origin(function@, opt_str_view(file), in_executable),
{
    if is_unresolved(function) {
        return FrameOrigin::Unknown;
    }
    if let Some(path) = file {
        return classify_path(path);
    }
    if let Some(origin) = classify_by_function_prefix(function) {
        return origin;
    }
    if in_executable {
        FrameOrigin::UserCode
    } else {
        FrameOrigin::Unknown
    }
}

// =============================================================================
// CLASSIFICATION DIAGNOSTICS
// =============================================================================

/// Counts how often classification had a source file path to go by, and
/// remembers which functions were reported as lacking debug info.
pub struct ClassificationDiagnostics {
    warned_functions: Vec<String>,
    frames_with_debug_info: u64,
    frames_without_debug_info: u64,
}

impl ClassificationDiagnostics {
    /// Functions already reported as lacking debug info.
    pub closed spec fn warned(&self) -> Set<Seq<char>> {
        self.warned_functions@.map_values(|s: String| s@).to_set()
    }

    /// Frames classified with a file path.
    pub closed spec fn with_info(&self) -> u64 {
        self.frames_with_debug_info
    }

    /// Frames classified without a file path.
    pub closed spec fn without_info(&self) -> u64 {
        self.frames_without_debug_info
    }

    /// A tracker with nothing recorded.
    pub fn new() -> (r: Self)
        ensures
            r.warned() == Set::<Seq<char>>::empty(),
            r.with_info() == 0,
            r.without_info() == 0,
    {
        let r = ClassificationDiagnostics {
            warned_functions: Vec::new(),
            frames_with_debug_info: 0,
            frames_without_debug_info: 0,
        };
        assert(r.warned_functions@.map_values(|s: String| s@) =~= Seq::<Seq<char>>::empty());
        r
    }

    /// Records one classification. Returns `true` exactly when a frame without
    /// a file path is seen for a function not reported before (the caller then
    /// logs the warning once).
    #[verifier::loop_isolation(false)]
    pub fn record_classification(&mut self, function: &str, had_file_path: bool) -> (newly_warned:
        bool)
        ensures
            recorded_after(*old(self), *final(self), had_file_path),
            had_file_path ==> final(self).with_info() == old(self).with_info().wrapping_add(1)
                && final(self).without_info() == old(self).without_info() && final(self).warned()
                == old(self).warned() && !newly_warned,
            !had_file_path ==> final(self).without_info() == old(self).without_info().wrapping_add(
                1,
            ) && final(self).with_info() == old(self).with_info() && final(self).warned()
                == old(self).warned().insert(function@) && newly_warned == !old(
                self,
            ).warned().contains(function@),
    {
        if had_file_path {
            self.frames_with_debug_info = self.frames_with_debug_info.wrapping_add(1);
            return false;
        }
        self.frames_without_debug_info = self.frames_without_debug_info.wrapping_add(1);
        let ghost old_list = self.warned_functions@;
        let mut i: usize = 0;
        while i < self.warned_functions.len()
            invariant
                i <= self.warned_functions.len(),
                self.warned_functions@ == old_list,
                old_list == old(self).warned_functions@,
                forall|j: int| 0 <= j < i ==> old_list[j]@ != function@,
            decreases self.warned_functions.len() - i,
        {
            if crate::text::str_eq(self.warned_functions[i].as_str(), function) {
                proof {
                    let m = old_list.map_values(|s: String| s@);
                    assert(m[i as int] == function@);
                    assert(m.to_set().contains(function@));
                    assert(old(self).warned().insert(function@) =~= old(self).warned());
                }
                return false;
            }
            i += 1;
        }
        proof {
            let m = old_list.map_values(|s: String| s@);
            assert(!m.contains(function@)) by {
                if m.contains(function@) {
                    let k = choose|k: int| 0 <= k < m.len() && m[k] == function@;
                    assert(old_list[k]@ == function@);
                }
            }
        }
        self.warned_functions.push(function.to_string());
        proof {
            let m_old = old_list.map_values(|s: String| s@);
            let m_new = self.warned_functions@.map_values(|s: String| s@);
            assert(m_new =~= m_old.push(function@));
            assert(m_new.to_set() =~= m_old.to_set().insert(function@)) by {
                assert forall|x: Seq<char>| m_new.to_set().contains(x) <==> m_old.to_set().insert(
                    function@,
                ).contains(x) by {
                    if m_new.to_set().contains(x) {
                        let k = choose|k: int| 0 <= k < m_new.len() && m_new[k] == x;
                        if k < m_old.len() {
                            assert(m_old[k] == x);
                        }
                    }
                    if m_old.to_set().contains(x) {
                        let k = choose|k: int| 0 <= k < m_old.len() && m_old[k] == x;
                        assert(m_new[k] == x);
                    }
                    if x == function@ {
                        assert(m_new[m_old.len() as int] == x);
                    }
                }
            }
        }
        true
    }

    /// Records the classification of one frame in the way `classify_frame`
    /// uses the tracker: frames with unresolved names are not counted; the
    /// others count as having debug info when a file path is present.
    /// Returns whether a new missing-debug-info warning is due.
    pub fn record_frame(&mut self, function: &str, file: Option<&str>) -> (newly_warned: bool)
        ensures
            is_unresolved_name(function@) ==> *final(self) == *old(self) && !newly_warned,
            !is_unresolved_name(function@) && file is Some ==> final(self).with_info() == old(
                self,
            ).with_info().wrapping_add(1) && final(self).without_info() == old(self).without_info()
                && final(self).warned() == old(self).warned() && !newly_warned,
            !is_unresolved_name(function@) && file is None ==> final(self).without_info() == old(
                self,
            ).without_info().wrapping_add(1) && final(self).with_info() == old(self).with_info()
                && final(self).warned() == old(self).warned().insert(function@) && newly_warned
                == !old(self).warned().contains(function@),
    {
        if is_unresolved(function) {
            return false;
        }
        self.record_classification(function, file.is_some())
    }

    /// Frames classified with a file path.
    pub fn frames_with_debug_info(&self) -> (r: u64)
        ensures
            r == self.with_info(),
    {
        self.frames_with_debug_info
    }

    /// Frames classified without a file path.
    pub fn frames_without_debug_info(&self) -> (r: u64)
        ensures
            r == self.without_info(),
    {
        self.frames_without_debug_info
    }

    /// Whether fewer than half of the classified frames had debug info
    /// (false while nothing has been classified).
    pub fn has_low_coverage(&self) -> (r: bool)
        ensures
            r == low_coverage(self.with_info() as nat, self.without_info() as nat),
    {
        let with = self.frames_with_debug_info as u128;
        let total = with + self.frames_without_debug_info as u128;
        total > 0 && with * 2 < total
    }
}

/// Coverage below 50%: with `w` frames with and `wo` without debug info.
pub open spec fn low_coverage(w: nat, wo: nat) -> bool {
    w + wo > 0 && w * 2 < w + wo
}

/// `d1` counts one more frame than `d0`: with debug info when `had`,
/// without it otherwise.
pub open spec fn recorded_after(d0: ClassificationDiagnostics, d1: ClassificationDiagnostics, had: bool) -> bool {
    if had {
        d1.with_info() == d0.with_info().wrapping_add(1) && d1.without_info() == d0.without_info()
    } else {
        d1.without_info() == d0.without_info().wrapping_add(1) && d1.with_info() == d0.with_info()
    }
}

/// Number of entries of `flags` equal to `v`.
pub open spec fn count_of(flags: Seq<bool>, v: bool) -> nat
    decreases flags.len(),
{
    if flags.len() == 0 {
        0
    } else {
        count_of(flags.drop_last(), v) + if flags.last() == v { 1nat } else { 0nat }
    }
}

/// Recording frames in any order, starting from a new tracker, counts those
/// with and without debug info, and coverage is low exactly when fewer
/// frames had debug info than not (never while nothing was recorded, and
/// not at exactly half).
pub proof fn lemma_coverage_after(flags: Seq<bool>, ds: Seq<ClassificationDiagnostics>)
    requires
        ds.len() == flags.len() + 1,
        ds[0].with_info() == 0 && ds[0].without_info() == 0,
        forall|i: int| 0 <= i < flags.len() ==> recorded_after(ds[i], #[trigger] ds[i + 1], flags[i]),
        flags.len() <= u64::MAX,
    ensures
        ds.last().with_info() == count_of(flags, true),
        ds.last().without_info() == count_of(flags, false),
        low_coverage(ds.last().with_info() as nat, ds.last().without_info() as nat) <==> count_of(flags, true)
            < count_of(flags, false),
    decreases flags.len(),
{
    if flags.len() > 0 {
        let n = flags.len() - 1;
        let pf = flags.drop_last();
        let pd = ds.drop_last();
        assert forall|i: int| 0 <= i < pf.len() implies recorded_after(pd[i], #[trigger] pd[i + 1], pf[i]) by {
            assert(recorded_after(ds[i], ds[i + 1], flags[i]));
        }
        lemma_coverage_after(pf, pd);
        lemma_count_bound(pf);
        assert(recorded_after(ds[n], ds[n + 1], flags[n]));
        assert(pd.last() == ds[n]);
    }
}

proof fn lemma_count_bound(flags: Seq<bool>)
    ensures
        count_of(flags, true) + count_of(flags, false) == flags.len(),
    decreases flags.len(),
{
    if flags.len() > 0 {
        lemma_count_bound(flags.drop_last());
    }
}

/// Where a resolved frame's source file lies decides its origin, whatever
/// its name says:
/// - in the cargo registry: the async runtime's crates, or a third-party
///   crate otherwise, never user code nor the standard library;
/// - else under a rustup toolchain or in rustc's sources: the standard
///   library, never user code;
/// - else under `/usr/` or `/lib/`: a third party;
/// - user code exactly when the path is none of these.
/// A frame whose name was not resolved is of unknown origin.
pub proof fn law_path_decides_origin(function: Seq<char>, path: Seq<char>, in_executable: bool)
    ensures
        is_unresolved_name(function) ==> frame_origin(function, Some(path), in_executable) == FrameOrigin::Unknown,
        !is_unresolved_name(function) ==> {
            let o = frame_origin(function, Some(path), in_executable);
            let registry = contains_seq(path, ".cargo/registry/"@) || contains_seq(path, ".cargo\\registry\\"@);
            let toolchain = contains_seq(path, ".rustup/toolchains/"@) || contains_seq(path, ".rustup\\toolchains\\"@);
            let rustc = contains_seq(path, "/rustc/"@) || contains_seq(path, "\\rustc\\"@);
            let system = is_prefix("/usr/"@, path) || is_prefix("/lib/"@, path);
            &&& registry ==> (o == FrameOrigin::RuntimeLib || o == FrameOrigin::ThirdParty)
            &&& registry ==> (o == FrameOrigin::RuntimeLib <==> contains_any(path, runtime_crate_patterns()))
            &&& !registry && (toolchain || rustc) ==> o == FrameOrigin::StdLib
            &&& !registry && !toolchain && !rustc && system ==> o == FrameOrigin::ThirdParty
            &&& o == FrameOrigin::UserCode <==> (!registry && !toolchain && !rustc && !system)
        },
{
}

} // verus!
