use hud::domain::errors::{ExportError, ProfilerError, TuiError};
use hud::domain::types::Pid;

#[test]
fn test_profiler_error_display() {
    let err = ProfilerError::ProcessNotFound(Pid(1234));
    let msg = err.message();
    assert!(msg.contains("Process PID:1234 not found"));
    assert!(msg.contains("ps -p"));
}

#[test]
fn test_probe_attach_error() {
    let err = ProfilerError::ProbeAttachFailed {
        probe: "trace_blocking_start".to_string(),
        binary: "/usr/bin/my-app".to_string(),
        error: "symbol not found".to_string(),
    };
    let msg = err.message();
    assert!(msg.contains("trace_blocking_start"));
    assert!(msg.contains("/usr/bin/my-app"));
    assert!(msg.contains("debug = true"));
}

#[test]
fn profiler_error_messages() {
    assert_eq!(ProfilerError::InvalidStackId(-14).message(), "Invalid stack trace ID: -14");
    assert_eq!(ProfilerError::InvalidStackId(7).message(), "Invalid stack trace ID: 7");
    assert!(ProfilerError::EbpfLoadFailed("bad object".to_string())
        .message()
        .starts_with("Failed to load eBPF program: bad object\n\nThis usually means:"));
    assert!(ProfilerError::NoWorkersFound(Pid(9))
        .message()
        .starts_with("No Tokio worker threads found in process PID:9\n\nPossible causes:"));
    assert!(ProfilerError::SymbolizationFailed("no dwarf".to_string())
        .message()
        .ends_with("[profile.release]\n  debug = true"));
    assert_eq!(
        ProfilerError::MemoryMapsParseFailed(Pid(3)).message(),
        "Failed to read /proc/PID:3/maps\n\nCheck that:\n  - Process PID:3 exists (ps -p PID:3)\n  - You have permission (try running with sudo)"
    );
    assert_eq!(
        ProfilerError::NoMemoryRangeFound { pid: Pid(5), binary: "app".to_string() }.message(),
        "Binary 'app' not found in process PID:5 memory maps\n\nThe --target path may not match the running binary.\nCheck with: cat /proc/PID:5/maps | grep -i app"
    );
    let io: ProfilerError = std::io::Error::new(std::io::ErrorKind::Other, "disk on fire").into();
    assert_eq!(io.message(), "disk on fire");
}

#[test]
fn export_and_display_error_messages() {
    assert_eq!(ExportError::SerializationFailed("x".to_string()).message(), "Failed to serialize trace data: x");
    assert_eq!(ExportError::WriteFailed("y".to_string()).message(), "Failed to write trace file: y");
    assert_eq!(TuiError::TraceParseFailed("a".to_string()).message(), "Failed to parse trace file: a");
    assert_eq!(TuiError::InvalidTraceData("b".to_string()).message(), "Invalid trace data: b");
    assert_eq!(TuiError::TerminalError("c".to_string()).message(), "Terminal error: c");
    let json_err = serde_json::from_str::<serde_json::Value>("{").unwrap_err();
    let expected = json_err.to_string();
    let e: ExportError = json_err.into();
    assert_eq!(e.message(), expected);
}
