use hud::cli::{
    exit_code_for, resolve_launch, stop_reason, Args, CliError, Launch, StopReason, EXIT_ERROR, EXIT_NOPERM,
    EXIT_USAGE,
};
use hud::domain::types::{CpuId, Duration, FunctionName, Pid, StackId, Tid, Timestamp, WorkerId};
use hud::text::{dec_to_string, parse_hex_u64_chars, parse_u32_chars, split_whitespace_chars};

fn args(process: Option<&str>, pid: Option<i32>, target: Option<&str>) -> Args {
    Args {
        process: process.map(String::from),
        pid,
        target: target.map(String::from),
        export: None,
        duration: 0,
        headless: false,
        quiet: false,
        threshold: 5,
        window: 0,
        workers: None,
    }
}

fn chars(s: &str) -> Vec<char> {
    s.chars().collect()
}

#[test]
fn test_worker_id_display() {
    let id = WorkerId(5);
    assert_eq!(id.to_display_string(), "Worker#5");
}

#[test]
fn test_pid_conversion() {
    let pid = Pid::from(1234i32);
    assert_eq!(pid.0, 1234);
    let back: i32 = pid.into();
    assert_eq!(back, 1234);
}

#[test]
fn test_stack_id_validity() {
    assert!(StackId(5).is_valid());
    assert!(!StackId(-1).is_valid());
    assert_eq!(StackId(42).as_map_key(), 42);
}

#[test]
fn test_function_name() {
    let name = FunctionName::new("my_function");
    assert_eq!(name.as_str(), "my_function");
    assert_eq!(name.to_display_string(), "my_function");
}

#[test]
fn test_duration_display() {
    assert_eq!(Duration(5_000_000).to_display_string(), "5.00ms");
    assert_eq!(Duration(1_500_000_000).to_display_string(), "1.50s");
}

#[test]
fn identifiers_display() {
    assert_eq!(Pid(42).to_display_string(), "PID:42");
    assert_eq!(Tid(7).to_display_string(), "TID:7");
    assert_eq!(CpuId(3).to_display_string(), "CPU:3");
    let negative: i32 = Pid::from(-5i32).into();
    assert_eq!(negative, -5);
}

#[test]
fn time_units() {
    assert_eq!(Timestamp(1_500_000_000).as_micros(), 1_500_000);
    assert_eq!(Timestamp(1_500_000_000).to_display_string(), "1.500s");
    assert_eq!(Timestamp(1_234_567_891).to_display_string(), "1.235s");
    assert_eq!(Timestamp(42_000).to_display_string(), "0.000s");
    assert_eq!(Duration(5_000_000).as_micros(), 5_000);
    assert_eq!(Duration(1_234_567).to_display_string(), "1.23ms");
    assert_eq!(Duration(2_000_000_000).to_display_string(), "2.00s");
    assert_eq!(Duration(0).to_display_string(), "0.00ms");
}

#[test]
fn launch_modes() {
    assert!(matches!(resolve_launch(&args(Some("app"), None, None)), Ok(Launch::ByName { name }) if name == "app"));
    assert!(matches!(
        resolve_launch(&args(None, Some(12), Some("/bin/app"))),
        Ok(Launch::ByPid { pid: 12, target: Some(t) }) if t == "/bin/app"
    ));
    assert!(matches!(resolve_launch(&args(None, Some(12), None)), Ok(Launch::ByPid { pid: 12, target: None })));
    assert!(matches!(resolve_launch(&args(Some("app"), Some(1), None)), Err(CliError::ConflictingTarget)));
    assert!(matches!(resolve_launch(&args(Some("app"), None, Some("/x"))), Err(CliError::ConflictingTarget)));
    let missing = resolve_launch(&args(None, None, Some("/x")));
    assert!(matches!(missing, Err(CliError::MissingTarget)));
    assert!(CliError::MissingTarget.message().starts_with("Missing required argument: PROCESS or --pid"));
    assert!(CliError::ConflictingTarget.message().starts_with("Cannot use PROCESS argument"));
}

#[test]
fn exit_codes_by_message() {
    assert_eq!(exit_code_for("Permission Denied: run as root"), EXIT_NOPERM);
    assert_eq!(exit_code_for("hud REQUIRES ROOT privileges"), EXIT_NOPERM);
    assert_eq!(exit_code_for("Missing required argument: PROCESS"), EXIT_USAGE);
    assert_eq!(exit_code_for("something else failed"), EXIT_ERROR);
}

#[test]
fn text_helpers() {
    assert_eq!(dec_to_string(0), "0");
    assert_eq!(dec_to_string(18446744073709551615), "18446744073709551615");
    assert_eq!(parse_u32_chars(&chars("4294967295")), Some(4294967295));
    assert_eq!(parse_u32_chars(&chars("4294967296")), None);
    assert_eq!(parse_u32_chars(&chars("")), None);
    assert_eq!(parse_hex_u64_chars(&chars("7fFF")), Some(0x7fff));
    assert_eq!(parse_hex_u64_chars(&chars("g")), None);
    let words: Vec<String> = split_whitespace_chars(&chars("  a bc\t d  "))
        .into_iter()
        .map(|w| w.into_iter().collect())
        .collect();
    assert_eq!(words, vec!["a", "bc", "d"]);
}

#[test]
fn profiling_stops_for_the_first_reason() {
    assert_eq!(stop_reason(0, 10_000_000_000_000, true, false), None);
    assert_eq!(stop_reason(60, 59_999_999_999, true, false), None);
    assert_eq!(stop_reason(60, 60_000_000_000, false, true), Some(StopReason::DurationLimit));
    assert_eq!(stop_reason(60, 1, false, true), Some(StopReason::ProcessExited));
    assert_eq!(stop_reason(0, 1, true, true), Some(StopReason::Interrupted));
    assert_eq!(StopReason::DurationLimit.message(), "duration limit reached");
    assert_eq!(StopReason::ProcessExited.message(), "process exited");
    assert_eq!(StopReason::Interrupted.message(), "interrupted");
}

fn duration_as_original(ns: u64) -> String {
    let ms = ns as f64 / 1_000_000.0;
    if ms >= 1000.0 {
        format!("{:.2}s", ns as f64 / 1_000_000_000.0)
    } else {
        format!("{:.2}ms", ms)
    }
}

#[test]
fn display_matches_binary64_formatting() {
    assert_eq!(Duration(1_005_000).to_display_string(), "1.00ms");
    assert_eq!(Timestamp(1_000_500_000).to_display_string(), "1.000s");
    assert_eq!(Duration(1_125_000).to_display_string(), "1.12ms");
    assert_eq!(Duration(1_135_000).to_display_string(), "1.14ms");
    let mut samples: Vec<u64> = vec![0, 1, 499, 500, 5_000, 4_999_999, 999_999_999, 1_000_000_000, u64::MAX, u64::MAX - 1];
    let mut x: u64 = 0x9E37_79B9_7F4A_7C15;
    for i in 0..20_000u64 {
        x ^= x << 13;
        x ^= x >> 7;
        x ^= x << 17;
        samples.push(x >> (i % 64));
        samples.push((i * 5_000) + 1_000_000 * (i % 7));
        samples.push(i * 1_000 + 500);
        samples.push(i * 500_000);
    }
    for ns in samples {
        assert_eq!(Duration(ns).to_display_string(), duration_as_original(ns), "duration {ns}");
        assert_eq!(
            Timestamp(ns).to_display_string(),
            format!("{:.3}s", ns as f64 / 1_000_000_000.0),
            "timestamp {ns}"
        );
    }
}
