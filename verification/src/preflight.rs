//! Checks of the system and the target before the probes are loaded, each
//! with an actionable message. The facts about the system (effective user,
//! `/proc/version`, the target file) are gathered by the caller and handed in.
use crate::process_lookup::{push_signed_dec, signed_dec_string};
use crate::text::{
    chars_of, dec_string, is_digit, parse_u32_chars, parse_u32_spec, push_dec, push_str,
    slice_chars, split_char_chars, split_pieces, split_whitespace_chars, string_from_chars, ws_tokens,
};
use object::{Object, ObjectSection};
use vstd::prelude::*;

verus! {

/// Oldest kernel release (major, minor) with the features the probes need.
pub const MIN_KERNEL_MAJOR: u32 = 5;

/// See [`MIN_KERNEL_MAJOR`].
pub const MIN_KERNEL_MINOR: u32 = 8;

/// Why a pre-flight check failed.
pub enum PreflightError {
    /// Not running as root.
    PermissionDenied,
    /// The running kernel is older than the minimum.
    KernelTooOld { major: u32, minor: u32, release: String },
    /// The target path does not exist.
    BinaryNotFound { path: String },
    /// The target path is not a regular file.
    NotAFile { path: String },
    /// The target file could not be read.
    BinaryUnreadable { path: String },
    /// No process with this pid.
    ProcessNotFound { pid: i32 },
    /// The memory maps of the process could not be read.
    ProcNotReadable { pid: i32 },
}

/// A warning about how much symbol information the target carries.
#[derive(PartialEq, Eq, Structural, Clone, Copy, Debug)]
pub enum SymbolWarning {
    /// Neither DWARF debug info nor a symbol table.
    Stripped,
    /// A symbol table but no DWARF debug info.
    NoDebugInfo,
}

/// What the caller found out about the system and the target.
pub struct SystemFacts {
    /// Effective user id of this process.
    pub euid: u32,
    /// Contents of `/proc/version`.
    pub kernel_version: String,
    /// Whether the target path exists.
    pub binary_exists: bool,
    /// Whether the target path is a regular file.
    pub binary_is_file: bool,
}

// =============================================================================
// SPECIFICATION
// =============================================================================

/// The leading run of ASCII digits of `s`.
pub open spec fn leading_digits(s: Seq<char>) -> Seq<char>
    decreases s.len(),
{
    if s.len() > 0 && is_digit(s[0]) {
        seq![s[0]] + leading_digits(s.drop_first())
    } else {
        seq![]
    }
}

/// The kernel release named in a `/proc/version` line: its third
/// whitespace-separated word, or `unknown`.
pub open spec fn kernel_release(version: Seq<char>) -> Seq<char> {
    let t = ws_tokens(version);
    if t.len() > 2 {
        t[2]
    } else {
        "unknown"@
    }
}

/// Major and minor number of a release such as `5.15.0-generic`, when it has
/// at least two dot-separated parts; an unreadable number counts as 0.
pub open spec fn release_numbers(release: Seq<char>) -> Option<(u32, u32)> {
    let parts = split_pieces(release, '.');
    if parts.len() < 2 {
        None
    } else {
        let major = match parse_u32_spec(parts[0]) {
            Some(v) => v,
            None => 0,
        };
        let minor = match parse_u32_spec(leading_digits(parts[1])) {
            Some(v) => v,
            None => 0,
        };
        Some((major, minor))
    }
}

/// `(major, minor)` is older than the minimum release.
pub open spec fn older_than_minimum(major: u32, minor: u32) -> bool {
    major < MIN_KERNEL_MAJOR || (major == MIN_KERNEL_MAJOR && minor < MIN_KERNEL_MINOR)
}

/// The outcome of the kernel check on a `/proc/version` line.
pub open spec fn kernel_check_spec(version: Seq<char>) -> Option<(u32, u32)> {
    match release_numbers(kernel_release(version)) {
        Some((major, minor)) => if older_than_minimum(major, minor) {
            Some((major, minor))
        } else {
            None
        },
        None => None,
    }
}

impl PreflightError {
    /// The message shown for this failure.
    pub open spec fn spec_message(&self) -> Seq<char> {
        match self {
            PreflightError::PermissionDenied =>
                "Permission denied: hud requires root privileges to load eBPF programs.\n\nRun with: sudo hud ..."@,
            PreflightError::KernelTooOld { major, minor, release } => "Kernel version "@ + dec_string(
                *major as nat,
            ) + "."@ + dec_string(*minor as nat)
                + " is too old.\n\nhud requires Linux 5.8 or newer for eBPF ring buffer support.\nCurrent kernel: "@
                + release@,
            PreflightError::BinaryNotFound { path } => "Binary not found: "@ + path@
                + "\n\nMake sure the path is correct and the binary exists."@,
            PreflightError::NotAFile { path } => "Not a file: "@ + path@
                + "\n\n--target must point to an executable file, not a directory."@,
            PreflightError::BinaryUnreadable { path } => "Failed to read binary: "@ + path@,
            PreflightError::ProcessNotFound { pid } => "Process "@ + signed_dec_string(*pid as int)
                + " not found.\n\nIs the process still running? Check with: ps -p "@
                + signed_dec_string(*pid as int),
            PreflightError::ProcNotReadable { pid } => "Cannot read /proc/"@ + signed_dec_string(
                *pid as int,
            ) + "/maps\n\nThis usually means:\n- The process doesn't exist (check: ps -p "@
                + signed_dec_string(*pid as int)
                + ")\n- Permission denied (run with sudo)\n- /proc is not mounted"@,
        }
    }
}

impl SymbolWarning {
    /// The warning text.
    pub open spec fn spec_message(&self) -> Seq<char> {
        match self {
            SymbolWarning::Stripped => "binary stripped, stack traces will show addresses only"@,
            SymbolWarning::NoDebugInfo => "no DWARF debug info, source locations unavailable"@,
        }
    }
}

/// The size of the named section in an object file, `None` inside when the
/// file has no such section, and `None` outside when the bytes do not parse
/// as an object file.
pub uninterp spec fn object_section_size(data: Seq<u8>, name: Seq<char>) -> Option<Option<u64>>;

/// Whether a section lookup found a non-empty section.
pub open spec fn nonempty_section(r: Option<u64>) -> bool {
    match r {
        Some(size) => size > 0,
        None => false,
    }
}

/// The warning for a parsed object file, given what the two section lookups
/// found.
pub open spec fn symbol_warning_spec(debug_info: Option<u64>, symtab: Option<u64>) -> Option<
    SymbolWarning,
> {
    if !nonempty_section(debug_info) && !nonempty_section(symtab) {
        Some(SymbolWarning::Stripped)
    } else if !nonempty_section(debug_info) {
        Some(SymbolWarning::NoDebugInfo)
    } else {
        None
    }
}

// =============================================================================
// IMPLEMENTATION
// =============================================================================

/// Looks up a section of an object file by name and gives its size.
///
/// Calls `object::File::parse` on the bytes, then `Object::section_by_name`
/// and `ObjectSection::size`. Parsing reads the bytes alone, so the result is
/// a function of the bytes and the name; it is not stated further here.
#[verifier::external_body]
fn section_size(data: &[u8], name: &str) -> (r: Option<Option<u64>>)
    ensures
        r == object_section_size(data@, name@),
{
    match object::File::parse(data) {
        Ok(obj) => match obj.section_by_name(name) {
            Some(section) => Some(Some(section.size())),
            None => Some(None),
        },
        Err(_) => None,
    }
}

proof fn lemma_leading_digits_prefix(s: Seq<char>, i: int)
    requires
        0 <= i <= s.len(),
        forall|j: int| 0 <= j < i ==> is_digit(#[trigger] s[j]),
        i == s.len() || !is_digit(s[i]),
    ensures
        leading_digits(s) == s.subrange(0, i),
    decreases i,
{
    if i == 0 {
        assert(s.subrange(0, 0) =~= Seq::<char>::empty());
    } else {
        let t = s.drop_first();
        assert forall|j: int| 0 <= j < i - 1 implies is_digit(#[trigger] t[j]) by {
            assert(t[j] == s[j + 1]);
        }
        lemma_leading_digits_prefix(t, i - 1);
        assert(seq![s[0]] + t.subrange(0, i - 1) =~= s.subrange(0, i));
    }
}

/// The leading run of ASCII digits of `s`.
pub fn take_leading_digits(s: &[char]) -> (r: Vec<char>)
    ensures
        r@ == leading_digits(s@),
{
    let mut i: usize = 0;
    while i < s.len() && '0' <= s[i] && s[i] <= '9'
        invariant
            i <= s.len(),
            forall|j: int| 0 <= j < i ==> is_digit(#[trigger] s@[j]),
        decreases s.len() - i,
    {
        i += 1;
    }
    proof {
        lemma_leading_digits_prefix(s@, i as int);
    }
    let mut r: Vec<char> = Vec::new();
    let mut k: usize = 0;
    while k < i
        invariant
            k <= i <= s.len(),
            r@ == s@.subrange(0, k as int),
        decreases i - k,
    {
        r.push(s[k]);
        k += 1;
        assert(r@ =~= s@.subrange(0, k as int));
    }
    r
}

/// Passes when running as root.
pub fn check_privileges(euid: u32) -> (r: Result<(), PreflightError>)
    ensures
        r is Ok <==> euid == 0,
        r is Err ==> r->Err_0 is PermissionDenied,
{
    if euid == 0 {
        Ok(())
    } else {
        Err(PreflightError::PermissionDenied)
    }
}

/// Passes unless the release in a `/proc/version` line is readable and older
/// than 5.8.
pub fn check_kernel_version(version_str: &str) -> (r: Result<(), PreflightError>)
    ensures
        match kernel_check_spec(version_str@) {
            None => r is Ok,
            Some((major, minor)) => r matches Err(PreflightError::KernelTooOld { major: a, minor: b, release })
                && a == major && b == minor && release@ == kernel_release(version_str@),
        },
{
    let s = chars_of(version_str);
    let tokens = split_whitespace_chars(s.as_slice());
    let ghost t = ws_tokens(s@);
    assert(tokens@.len() == t.len());
    let release: Vec<char> = if tokens.len() > 2 {
        assert(tokens@[2]@ == t[2]);
        let tok = &tokens[2];
        let r = slice_chars(tok.as_slice(), 0, tok.len());
        assert(tok@.subrange(0, tok@.len() as int) =~= tok@);
        r
    } else {
        chars_of("unknown")
    };
    assert(release@ == kernel_release(version_str@));
    let parts = split_char_chars(release.as_slice(), '.');
    let ghost ps = split_pieces(release@, '.');
    assert(parts@.len() == ps.len());
    if parts.len() < 2 {
        return Ok(());
    }
    assert(parts@[0]@ == ps[0]);
    assert(parts@[1]@ == ps[1]);
    let major: u32 = match parse_u32_chars(parts[0].as_slice()) {
        Some(v) => v,
        None => 0,
    };
    let digits = take_leading_digits(parts[1].as_slice());
    let minor: u32 = match parse_u32_chars(digits.as_slice()) {
        Some(v) => v,
        None => 0,
    };
    if major < MIN_KERNEL_MAJOR || (major == MIN_KERNEL_MAJOR && minor < MIN_KERNEL_MINOR) {
        return Err(
            PreflightError::KernelTooOld {
                major,
                minor,
                release: string_from_chars(release.as_slice()),
            },
        );
    }
    Ok(())
}

/// Passes when the target path names an existing regular file.
pub fn check_binary_exists(target_path: &str, exists: bool, is_file: bool) -> (r: Result<
    (),
    PreflightError,
>)
    ensures
        !exists ==> (r matches Err(PreflightError::BinaryNotFound { path }) && path@ == target_path@),
        exists && !is_file ==> (r matches Err(PreflightError::NotAFile { path }) && path@
            == target_path@),
        exists && is_file ==> r is Ok,
{
    if !exists {
        return Err(PreflightError::BinaryNotFound { path: target_path.to_string() });
    }
    if !is_file {
        return Err(PreflightError::NotAFile { path: target_path.to_string() });
    }
    Ok(())
}

/// The warning to give about the target's symbols, from the bytes of the
/// file; none when `quiet`, or when the bytes are not an object file.
pub fn check_debug_symbols(file_data: &[u8], quiet: bool) -> (r: Option<SymbolWarning>)
    ensures
        quiet ==> r is None,
        !quiet ==> r == (match (
            object_section_size(file_data@, ".debug_info"@),
            object_section_size(file_data@, ".symtab"@),
        ) {
            (Some(d), Some(s)) => symbol_warning_spec(d, s),
            _ => None,
        }),
{
    if quiet {
        return None;
    }
    let debug_info = section_size(file_data, ".debug_info");
    let symtab = section_size(file_data, ".symtab");
    match (debug_info, symtab) {
        (Some(d), Some(s)) => symbol_warning(d, s),
        _ => None,
    }
}

/// The warning for a parsed object file, given what the lookups of
/// `.debug_info` and `.symtab` found.
pub fn symbol_warning(debug_info: Option<u64>, symtab: Option<u64>) -> (r: Option<SymbolWarning>)
    ensures
        r == symbol_warning_spec(debug_info, symtab),
{
    let has_debug_info = match debug_info {
        Some(size) => size > 0,
        None => false,
    };
    let has_symtab = match symtab {
        Some(size) => size > 0,
        None => false,
    };
    if !has_debug_info && !has_symtab {
        Some(SymbolWarning::Stripped)
    } else if !has_debug_info {
        Some(SymbolWarning::NoDebugInfo)
    } else {
        None
    }
}

/// Runs the checks in order (privileges, kernel, target file, symbols) and
/// stops at the first failure. The bytes of the target are needed only when
/// not `quiet`; `None` stands for a file that could not be read.
pub fn run_preflight_checks(
    target_path: &str,
    quiet: bool,
    facts: &SystemFacts,
    binary_data: Option<&[u8]>,
) -> (r: Result<Option<SymbolWarning>, PreflightError>)
    ensures
        facts.euid != 0 ==> r matches Err(PreflightError::PermissionDenied),
        facts.euid == 0 ==> match kernel_check_spec(facts.kernel_version@) {
            Some((major, minor)) => r matches Err(PreflightError::KernelTooOld { major: a, minor: b, release })
                && a == major && b == minor && release@ == kernel_release(facts.kernel_version@),
            None => true,
        },
        facts.euid == 0 && kernel_check_spec(facts.kernel_version@) is None && !facts.binary_exists
            ==> (r matches Err(PreflightError::BinaryNotFound { path }) && path@ == target_path@),
        facts.euid == 0 && kernel_check_spec(facts.kernel_version@) is None && facts.binary_exists
            && !facts.binary_is_file ==> (r matches Err(PreflightError::NotAFile { path }) && path@ == target_path@),
        facts.euid == 0 && kernel_check_spec(facts.kernel_version@) is None && facts.binary_exists
            && facts.binary_is_file ==> (if quiet {
            r == Ok::<Option<SymbolWarning>, PreflightError>(None)
        } else {
            match binary_data {
                None => (r matches Err(PreflightError::BinaryUnreadable { path }) && path@
                    == target_path@),
                Some(data) => r is Ok && r->Ok_0 == (match (
                    object_section_size(data@, ".debug_info"@),
                    object_section_size(data@, ".symtab"@),
                ) {
                    (Some(d), Some(s)) => symbol_warning_spec(d, s),
                    _ => None,
                }),
            }
        }),
{
    check_privileges(facts.euid)?;
    check_kernel_version(facts.kernel_version.as_str())?;
    check_binary_exists(target_path, facts.binary_exists, facts.binary_is_file)?;
    if quiet {
        return Ok(None);
    }
    match binary_data {
        None => Err(PreflightError::BinaryUnreadable { path: target_path.to_string() }),
        Some(data) => Ok(check_debug_symbols(data, quiet)),
    }
}

/// Passes when the process exists.
pub fn check_process_exists(pid: i32, exists: bool) -> (r: Result<(), PreflightError>)
    ensures
        exists <==> r is Ok,
        !exists ==> (r matches Err(PreflightError::ProcessNotFound { pid: p }) && p == pid),
{
    if !exists {
        return Err(PreflightError::ProcessNotFound { pid });
    }
    Ok(())
}

/// Passes when the memory maps of the process could be read.
pub fn check_proc_access(pid: i32, maps_readable: bool) -> (r: Result<(), PreflightError>)
    ensures
        maps_readable <==> r is Ok,
        !maps_readable ==> (r matches Err(PreflightError::ProcNotReadable { pid: p }) && p == pid),
{
    if !maps_readable {
        return Err(PreflightError::ProcNotReadable { pid });
    }
    Ok(())
}

impl PreflightError {
    /// The message shown for this failure.
    pub fn message(&self) -> (m: String)
        ensures
            m@ == self.spec_message(),
    {
        let mut m = String::new();
        match self {
            PreflightError::PermissionDenied => {
                push_str(
                    &mut m,
                    "Permission denied: hud requires root privileges to load eBPF programs.\n\nRun with: sudo hud ...",
                );
            },
            PreflightError::KernelTooOld { major, minor, release } => {
                push_str(&mut m, "Kernel version ");
                push_dec(&mut m, *major as u64);
                push_str(&mut m, ".");
                push_dec(&mut m, *minor as u64);
                push_str(
                    &mut m,
                    " is too old.\n\nhud requires Linux 5.8 or newer for eBPF ring buffer support.\nCurrent kernel: ",
                );
                push_str(&mut m, release.as_str());
            },
            PreflightError::BinaryNotFound { path } => {
                push_str(&mut m, "Binary not found: ");
                push_str(&mut m, path.as_str());
                push_str(&mut m, "\n\nMake sure the path is correct and the binary exists.");
            },
            PreflightError::NotAFile { path } => {
                push_str(&mut m, "Not a file: ");
                push_str(&mut m, path.as_str());
                push_str(&mut m, "\n\n--target must point to an executable file, not a directory.");
            },
            PreflightError::BinaryUnreadable { path } => {
                push_str(&mut m, "Failed to read binary: ");
                push_str(&mut m, path.as_str());
            },
            PreflightError::ProcessNotFound { pid } => {
                push_str(&mut m, "Process ");
                push_signed_dec(&mut m, *pid);
                push_str(&mut m, " not found.\n\nIs the process still running? Check with: ps -p ");
                push_signed_dec(&mut m, *pid);
            },
            PreflightError::ProcNotReadable { pid } => {
                push_str(&mut m, "Cannot read /proc/");
                push_signed_dec(&mut m, *pid);
                push_str(&mut m, "/maps\n\nThis usually means:\n- The process doesn't exist (check: ps -p ");
                push_signed_dec(&mut m, *pid);
                push_str(&mut m, ")\n- Permission denied (run with sudo)\n- /proc is not mounted");
            },
        }
        m
    }
}

impl SymbolWarning {
    /// The warning text.
    pub fn message(&self) -> (m: String)
        ensures
            m@ == self.spec_message(),
    {
        let mut m = String::new();
        match self {
            SymbolWarning::Stripped => push_str(
                &mut m,
                "binary stripped, stack traces will show addresses only",
            ),
            SymbolWarning::NoDebugInfo => push_str(
                &mut m,
                "no DWARF debug info, source locations unavailable",
            ),
        }
        m
    }
}

} // verus!
