//! The command line: its options, how the target process is chosen from
//! them, and the exit code of a failure.
use crate::text::{lowercase, to_lowercase, chars_of, contains_chars, contains_seq, push_str};
use vstd::prelude::*;

verus! {

/// Exit code of a run that succeeded.
pub const EXIT_SUCCESS: i32 = 0;

/// Exit code of a failed run.
pub const EXIT_ERROR: i32 = 1;

/// Exit code of a usage error.
pub const EXIT_USAGE: i32 = 2;

/// Exit code when privileges are missing.
pub const EXIT_NOPERM: i32 = 77;

/// Command-line options.
pub struct Args {
    /// Process name to profile (PID and binary detected).
    pub process: Option<String>,
    /// Process id to profile.
    pub pid: Option<i32>,
    /// Binary for symbol resolution.
    pub target: Option<String>,
    /// File to export the trace to.
    pub export: Option<String>,
    /// Stop after this many seconds (0: no limit).
    pub duration: u64,
    /// Run without the display (needs `export`).
    pub headless: bool,
    /// Less output.
    pub quiet: bool,
    /// Blocking threshold in milliseconds.
    pub threshold: u64,
    /// Rolling window in seconds (0: all data).
    pub window: u64,
    /// Thread name prefix of the workers.
    pub workers: Option<String>,
}

/// How the process to profile is found.
pub enum Launch {
    /// By name: PID and binary are looked up.
    ByName { name: String },
    /// By PID, with the binary given or looked up.
    ByPid { pid: i32, target: Option<String> },
}

/// Why the command line names no process.
#[derive(Debug, PartialEq, Eq)]
pub enum CliError {
    /// A process name together with `--pid` or `--target`.
    ConflictingTarget,
    /// Neither a process name nor `--pid`.
    MissingTarget,
}

impl CliError {
    /// The message for this failure.
    pub open spec fn spec_message(&self) -> Seq<char> {
        match self {
            CliError::ConflictingTarget => "Cannot use PROCESS argument with --pid or --target.\n\nUse either:\n  hud my-app              (auto-detect)\n  hud --pid 1234          (explicit PID)"@,
            CliError::MissingTarget => "Missing required argument: PROCESS or --pid\n\nUsage:\n  hud my-app              Auto-detect PID and binary\n  hud --pid 1234          Explicit PID, auto-detect binary\n\nRun 'hud --help' for more options"@,
        }
    }

    /// The message for this failure.
    pub fn message(&self) -> (r: String)
        ensures
            r@ == self.spec_message(),
    {
        let mut s = String::new();
        match self {
            CliError::ConflictingTarget => push_str(&mut s, "Cannot use PROCESS argument with --pid or --target.\n\nUse either:\n  hud my-app              (auto-detect)\n  hud --pid 1234          (explicit PID)"),
            CliError::MissingTarget => push_str(&mut s, "Missing required argument: PROCESS or --pid\n\nUsage:\n  hud my-app              Auto-detect PID and binary\n  hud --pid 1234          Explicit PID, auto-detect binary\n\nRun 'hud --help' for more options"),
        }
        s
    }
}

/// Chooses how to find the process: a process name alone, or a PID with an
/// optional binary.
pub fn resolve_launch(args: &Args) -> (r: Result<Launch, CliError>)
    ensures
        args.process is Some && (args.pid is Some || args.target is Some) ==> r matches Err(CliError::ConflictingTarget),
        args.process is Some && args.pid is None && args.target is None ==> (r matches Ok(Launch::ByName { name }) && name@ == args.process->0@),
        args.process is None && args.pid is Some ==> (r matches Ok(Launch::ByPid { pid, target }) && pid == args.pid->0 && match target {
            Some(t) => args.target matches Some(a) && t@ == a@,
            None => args.target is None,
        }),
        args.process is None && args.pid is None ==> r matches Err(CliError::MissingTarget),
{
    if let Some(name) = &args.process {
        if args.pid.is_some() || args.target.is_some() {
            return Err(CliError::ConflictingTarget);
        }
        return Ok(Launch::ByName { name: name.clone() });
    }
    if let Some(pid) = args.pid {
        let target = match &args.target {
            Some(t) => Some(t.clone()),
            None => None,
        };
        return Ok(Launch::ByPid { pid, target });
    }
    Err(CliError::MissingTarget)
}

/// The exit code for a failure with this message.
pub open spec fn exit_code_spec(msg: Seq<char>) -> i32 {
    let m = lowercase(msg);
    if contains_seq(m, "permission denied"@) || contains_seq(m, "requires root"@) {
        EXIT_NOPERM
    } else if contains_seq(m, "missing required argument"@) {
        EXIT_USAGE
    } else {
        EXIT_ERROR
    }
}

/// The exit code of a failure: 77 for missing privileges, 2 for a usage
/// error, else 1 (matched case-insensitively on the message).
pub fn exit_code_for(message: &str) -> (r: i32)
    ensures
        r == exit_code_spec(message@),
{
    let lower = to_lowercase(message);
    let m = chars_of(lower.as_str());
    let denied = chars_of("permission denied");
    let root = chars_of("requires root");
    let missing = chars_of("missing required argument");
    if contains_chars(m.as_slice(), denied.as_slice()) || contains_chars(m.as_slice(), root.as_slice()) {
        EXIT_NOPERM
    } else if contains_chars(m.as_slice(), missing.as_slice()) {
        EXIT_USAGE
    } else {
        EXIT_ERROR
    }
}

/// Why the profiling loop stops.
#[derive(Debug, Clone, Copy, PartialEq, Eq, Structural)]
pub enum StopReason {
    /// The configured duration has passed.
    DurationLimit,
    /// The target process is gone.
    ProcessExited,
    /// The user pressed Ctrl-C.
    Interrupted,
}

impl StopReason {
    /// The text the summary line starts with.
    pub fn message(&self) -> (m: String)
        ensures
            m@ == match *self {
                StopReason::DurationLimit => "duration limit reached"@,
                StopReason::ProcessExited => "process exited"@,
                StopReason::Interrupted => "interrupted"@,
            },
    {
        let mut s = String::new();
        match self {
            StopReason::DurationLimit => push_str(&mut s, "duration limit reached"),
            StopReason::ProcessExited => push_str(&mut s, "process exited"),
            StopReason::Interrupted => push_str(&mut s, "interrupted"),
        }
        s
    }
}

/// Whether the profiling loop stops now, and why: first the duration limit
/// (`duration_secs` seconds, none when 0) against the nanoseconds elapsed,
/// then the target process having exited, then an interrupt.
pub fn stop_reason(duration_secs: u64, elapsed_ns: u128, process_alive: bool, interrupted: bool) -> (r: Option<
    StopReason,
>)
    ensures
        r == if duration_secs > 0 && elapsed_ns >= duration_secs * 1_000_000_000 {
            Some(StopReason::DurationLimit)
        } else if !process_alive {
            Some(StopReason::ProcessExited)
        } else if interrupted {
            Some(StopReason::Interrupted)
        } else {
            None
        },
{
    let limit_ns: u128 = duration_secs as u128 * 1_000_000_000;
    if duration_secs > 0 && elapsed_ns >= limit_ns {
        Some(StopReason::DurationLimit)
    } else if !process_alive {
        Some(StopReason::ProcessExited)
    } else if interrupted {
        Some(StopReason::Interrupted)
    } else {
        None
    }
}

} // verus!
