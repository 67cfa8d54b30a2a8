//! Error types of the profiler, the exporter and the display, each with the
//! message shown to the user (what went wrong and what to check).
use crate::domain::types::Pid;
use crate::process_lookup::signed_dec_string;
use crate::text::{dec_string, push_char, push_dec, push_str};
use vstd::prelude::*;

verus! {

#[verifier::external_type_specification]
#[verifier::external_body]
pub struct ExIoError(std::io::Error);

#[verifier::external_type_specification]
#[verifier::external_body]
pub struct ExEbpfError(aya::EbpfError);

#[verifier::external_type_specification]
#[verifier::external_body]
pub struct ExJsonError(serde_json::Error);

/// Failures of a profiling session.
pub enum ProfilerError {
    /// The eBPF program could not be loaded.
    EbpfLoadFailed(String),
    /// No such process.
    ProcessNotFound(Pid),
    /// The process has no Tokio worker threads.
    NoWorkersFound(Pid),
    /// A probe could not be attached to the binary.
    ProbeAttachFailed { probe: String, binary: String, error: String },
    /// Symbols could not be resolved.
    SymbolizationFailed(String),
    /// The memory maps of the process could not be read.
    MemoryMapsParseFailed(Pid),
    /// The binary does not appear in the memory maps of the process.
    NoMemoryRangeFound { pid: Pid, binary: String },
    /// A stack id that does not name a stack.
    InvalidStackId(i64),
    /// An I/O error.
    Io(std::io::Error),
    /// An error of the eBPF loader.
    Aya(aya::EbpfError),
}

/// Failures of the trace export.
pub enum ExportError {
    /// The trace could not be serialized.
    SerializationFailed(String),
    /// The trace file could not be written.
    WriteFailed(String),
    /// An I/O error.
    Io(std::io::Error),
    /// A JSON error.
    Json(serde_json::Error),
}

/// Failures of the display.
pub enum TuiError {
    /// A trace file could not be parsed.
    TraceParseFailed(String),
    /// A trace file holds inconsistent data.
    InvalidTraceData(String),
    /// The terminal failed.
    TerminalError(String),
    /// An I/O error.
    Io(std::io::Error),
    /// A JSON error.
    Json(serde_json::Error),
}

/// The display text of an I/O error, as `std::io::Error` formats it.
///
/// Calls `ToString::to_string`; the text depends on the operating system's
/// messages and is not stated here.
#[verifier::external_body]
fn io_error_text(e: &std::io::Error) -> String {
    e.to_string()
}

/// The display text of an eBPF loader error, as `aya::EbpfError` formats it.
///
/// Calls `ToString::to_string`; the text is not stated here.
#[verifier::external_body]
fn ebpf_error_text(e: &aya::EbpfError) -> String {
    e.to_string()
}

/// The display text of a JSON error, as `serde_json::Error` formats it.
///
/// Calls `ToString::to_string`; the text is not stated here.
#[verifier::external_body]
fn json_error_text(e: &serde_json::Error) -> String {
    e.to_string()
}

/// `PID:<n>`, the display form of a process id.
pub open spec fn pid_text(p: Pid) -> Seq<char> {
    "PID:"@ + dec_string(p.0 as nat)
}

fn push_pid(s: &mut String, p: Pid)
    ensures
        final(s)@ == old(s)@ + pid_text(p),
{
    push_str(s, "PID:");
    push_dec(s, p.0 as u64);
}

fn push_i64(s: &mut String, n: i64)
    ensures
        final(s)@ == old(s)@ + signed_dec_string(n as int),
{
    if n < 0 {
        push_char(s, '-');
        let m: u64 = (0i128 - n as i128) as u64;
        push_dec(s, m);
    } else {
        push_dec(s, n as u64);
    }
}

impl ProfilerError {
    /// The message for the variants that carry their own text; the I/O and
    /// loader errors show the text of the underlying error.
    pub open spec fn spec_message(&self) -> Option<Seq<char>> {
        match self {
            ProfilerError::EbpfLoadFailed(m) => Some(
                "Failed to load eBPF program: "@ + m@
                    + "\n\nThis usually means:\n  - Not running as root (run with: sudo hud ...)\n  - Kernel too old (requires Linux 5.8+)\n  - eBPF disabled in kernel config"@,
            ),
            ProfilerError::ProcessNotFound(p) => Some(
                "Process "@ + pid_text(*p) + " not found\n\nIs the process still running? Check with: ps -p "@
                    + pid_text(*p),
            ),
            ProfilerError::NoWorkersFound(p) => Some(
                "No Tokio worker threads found in process "@ + pid_text(*p)
                    + "\n\nPossible causes:\n  - Not a Tokio application\n  - Using single-threaded runtime (current_thread)\n  - Workers not yet spawned (try again after warmup)"@,
            ),
            ProfilerError::ProbeAttachFailed { probe, binary, error } => Some(
                "Failed to attach "@ + probe@ + " to "@ + binary@ + ": "@ + error@
                    + "\n\nThis may indicate:\n  - Binary is stripped (rebuild with debug = true)\n  - Symbol was inlined in release build\n  - Wrong binary path specified"@,
            ),
            ProfilerError::SymbolizationFailed(m) => Some(
                "Symbol resolution failed: "@ + m@
                    + "\n\nEnsure the binary has debug symbols:\n  [profile.release]\n  debug = true"@,
            ),
            ProfilerError::MemoryMapsParseFailed(p) => Some(
                "Failed to read /proc/"@ + pid_text(*p) + "/maps\n\nCheck that:\n  - Process "@ + pid_text(*p)
                    + " exists (ps -p "@ + pid_text(*p) + ")\n  - You have permission (try running with sudo)"@,
            ),
            ProfilerError::NoMemoryRangeFound { pid, binary } => Some(
                "Binary '"@ + binary@ + "' not found in process "@ + pid_text(*pid)
                    + " memory maps\n\nThe --target path may not match the running binary.\nCheck with: cat /proc/"@
                    + pid_text(*pid) + "/maps | grep -i "@ + binary@,
            ),
            ProfilerError::InvalidStackId(id) => Some("Invalid stack trace ID: "@ + signed_dec_string(*id as int)),
            ProfilerError::Io(_) => None,
            ProfilerError::Aya(_) => None,
        }
    }

    /// The message shown for this failure.
    pub fn message(&self) -> (m: String)
        ensures
            self.spec_message() matches Some(t) ==> m@ == t,
    {
        let mut m = String::new();
        match self {
            ProfilerError::EbpfLoadFailed(e) => {
                push_str(&mut m, "Failed to load eBPF program: ");
                push_str(&mut m, e.as_str());
                push_str(
                    &mut m,
                    "\n\nThis usually means:\n  - Not running as root (run with: sudo hud ...)\n  - Kernel too old (requires Linux 5.8+)\n  - eBPF disabled in kernel config",
                );
            },
            ProfilerError::ProcessNotFound(p) => {
                push_str(&mut m, "Process ");
                push_pid(&mut m, *p);
                push_str(&mut m, " not found\n\nIs the process still running? Check with: ps -p ");
                push_pid(&mut m, *p);
            },
            ProfilerError::NoWorkersFound(p) => {
                push_str(&mut m, "No Tokio worker threads found in process ");
                push_pid(&mut m, *p);
                push_str(
                    &mut m,
                    "\n\nPossible causes:\n  - Not a Tokio application\n  - Using single-threaded runtime (current_thread)\n  - Workers not yet spawned (try again after warmup)",
                );
            },
            ProfilerError::ProbeAttachFailed { probe, binary, error } => {
                push_str(&mut m, "Failed to attach ");
                push_str(&mut m, probe.as_str());
                push_str(&mut m, " to ");
                push_str(&mut m, binary.as_str());
                push_str(&mut m, ": ");
                push_str(&mut m, error.as_str());
                push_str(
                    &mut m,
                    "\n\nThis may indicate:\n  - Binary is stripped (rebuild with debug = true)\n  - Symbol was inlined in release build\n  - Wrong binary path specified",
                );
            },
            ProfilerError::SymbolizationFailed(e) => {
                push_str(&mut m, "Symbol resolution failed: ");
                push_str(&mut m, e.as_str());
                push_str(&mut m, "\n\nEnsure the binary has debug symbols:\n  [profile.release]\n  debug = true");
            },
            ProfilerError::MemoryMapsParseFailed(p) => {
                push_str(&mut m, "Failed to read /proc/");
                push_pid(&mut m, *p);
                push_str(&mut m, "/maps\n\nCheck that:\n  - Process ");
                push_pid(&mut m, *p);
                push_str(&mut m, " exists (ps -p ");
                push_pid(&mut m, *p);
                push_str(&mut m, ")\n  - You have permission (try running with sudo)");
            },
            ProfilerError::NoMemoryRangeFound { pid, binary } => {
                push_str(&mut m, "Binary '");
                push_str(&mut m, binary.as_str());
                push_str(&mut m, "' not found in process ");
                push_pid(&mut m, *pid);
                push_str(
                    &mut m,
                    " memory maps\n\nThe --target path may not match the running binary.\nCheck with: cat /proc/",
                );
                push_pid(&mut m, *pid);
                push_str(&mut m, "/maps | grep -i ");
                push_str(&mut m, binary.as_str());
            },
            ProfilerError::InvalidStackId(id) => {
                push_str(&mut m, "Invalid stack trace ID: ");
                push_i64(&mut m, *id);
            },
            ProfilerError::Io(e) => {
                m = io_error_text(e);
            },
            ProfilerError::Aya(e) => {
                m = ebpf_error_text(e);
            },
        }
        m
    }
}

impl ExportError {
    /// The message for the variants that carry their own text.
    pub open spec fn spec_message(&self) -> Option<Seq<char>> {
        match self {
            ExportError::SerializationFailed(m) => Some("Failed to serialize trace data: "@ + m@),
            ExportError::WriteFailed(m) => Some("Failed to write trace file: "@ + m@),
            ExportError::Io(_) => None,
            ExportError::Json(_) => None,
        }
    }

    /// The message shown for this failure.
    pub fn message(&self) -> (m: String)
        ensures
            self.spec_message() matches Some(t) ==> m@ == t,
    {
        let mut m = String::new();
        match self {
            ExportError::SerializationFailed(e) => {
                push_str(&mut m, "Failed to serialize trace data: ");
                push_str(&mut m, e.as_str());
            },
            ExportError::WriteFailed(e) => {
                push_str(&mut m, "Failed to write trace file: ");
                push_str(&mut m, e.as_str());
            },
            ExportError::Io(e) => {
                m = io_error_text(e);
            },
            ExportError::Json(e) => {
                m = json_error_text(e);
            },
        }
        m
    }
}

impl TuiError {
    /// The message for the variants that carry their own text.
    pub open spec fn spec_message(&self) -> Option<Seq<char>> {
        match self {
            TuiError::TraceParseFailed(m) => Some("Failed to parse trace file: "@ + m@),
            TuiError::InvalidTraceData(m) => Some("Invalid trace data: "@ + m@),
            TuiError::TerminalError(m) => Some("Terminal error: "@ + m@),
            TuiError::Io(_) => None,
            TuiError::Json(_) => None,
        }
    }

    /// The message shown for this failure.
    pub fn message(&self) -> (m: String)
        ensures
            self.spec_message() matches Some(t) ==> m@ == t,
    {
        let mut m = String::new();
        match self {
            TuiError::TraceParseFailed(e) => {
                push_str(&mut m, "Failed to parse trace file: ");
                push_str(&mut m, e.as_str());
            },
            TuiError::InvalidTraceData(e) => {
                push_str(&mut m, "Invalid trace data: ");
                push_str(&mut m, e.as_str());
            },
            TuiError::TerminalError(e) => {
                push_str(&mut m, "Terminal error: ");
                push_str(&mut m, e.as_str());
            },
            TuiError::Io(e) => {
                m = io_error_text(e);
            },
            TuiError::Json(e) => {
                m = json_error_text(e);
            },
        }
        m
    }
}

impl From<std::io::Error> for ProfilerError {
    fn from(e: std::io::Error) -> (r: Self) {
        ProfilerError::Io(e)
    }
}

impl vstd::std_specs::convert::FromSpecImpl<std::io::Error> for ProfilerError {
    open spec fn obeys_from_spec() -> bool {
        true
    }

    open spec fn from_spec(e: std::io::Error) -> Self {
        ProfilerError::Io(e)
    }
}

impl From<aya::EbpfError> for ProfilerError {
    fn from(e: aya::EbpfError) -> (r: Self) {
        ProfilerError::Aya(e)
    }
}

impl vstd::std_specs::convert::FromSpecImpl<aya::EbpfError> for ProfilerError {
    open spec fn obeys_from_spec() -> bool {
        true
    }

    open spec fn from_spec(e: aya::EbpfError) -> Self {
        ProfilerError::Aya(e)
    }
}

impl From<std::io::Error> for ExportError {
    fn from(e: std::io::Error) -> (r: Self) {
        ExportError::Io(e)
    }
}

impl vstd::std_specs::convert::FromSpecImpl<std::io::Error> for ExportError {
    open spec fn obeys_from_spec() -> bool {
        true
    }

    open spec fn from_spec(e: std::io::Error) -> Self {
        ExportError::Io(e)
    }
}

impl From<serde_json::Error> for ExportError {
    fn from(e: serde_json::Error) -> (r: Self) {
        ExportError::Json(e)
    }
}

impl vstd::std_specs::convert::FromSpecImpl<serde_json::Error> for ExportError {
    open spec fn obeys_from_spec() -> bool {
        true
    }

    open spec fn from_spec(e: serde_json::Error) -> Self {
        ExportError::Json(e)
    }
}

impl From<std::io::Error> for TuiError {
    fn from(e: std::io::Error) -> (r: Self) {
        TuiError::Io(e)
    }
}

impl vstd::std_specs::convert::FromSpecImpl<std::io::Error> for TuiError {
    open spec fn obeys_from_spec() -> bool {
        true
    }

    open spec fn from_spec(e: std::io::Error) -> Self {
        TuiError::Io(e)
    }
}

impl From<serde_json::Error> for TuiError {
    fn from(e: serde_json::Error) -> (r: Self) {
        TuiError::Json(e)
    }
}

impl vstd::std_specs::convert::FromSpecImpl<serde_json::Error> for TuiError {
    open spec fn obeys_from_spec() -> bool {
        true
    }

    open spec fn from_spec(e: serde_json::Error) -> Self {
        TuiError::Json(e)
    }
}

} // verus!
