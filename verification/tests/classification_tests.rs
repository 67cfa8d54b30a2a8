use hud::classification::{
    classify_by_function_prefix, classify_frame, is_runtime_path, is_unresolved,
    ClassificationDiagnostics, FrameOrigin,
};

#[test]
fn test_user_code_relative_path() {
    let origin = classify_frame("myapp::main", Some("src/main.rs"), true);
    assert_eq!(origin, FrameOrigin::UserCode);
    assert!(origin.is_user_code());
}

#[test]
fn test_tokio_by_function_name() {
    let origin = classify_frame("tokio::runtime::scheduler::inject::Inject::push", None, true);
    assert_eq!(origin, FrameOrigin::RuntimeLib);
    assert!(!origin.is_user_code());
}

#[test]
fn test_std_by_rustc_path() {
    let origin = classify_frame(
        "std::io::Read::read",
        Some("/rustc/abc123def/library/std/src/io/mod.rs"),
        true,
    );
    assert_eq!(origin, FrameOrigin::StdLib);
}

#[test]
fn test_cargo_registry_tokio() {
    let origin = classify_frame(
        "tokio::sync::mutex::Mutex::lock",
        Some("/home/user/.cargo/registry/src/index.crates.io-xxx/tokio-1.35.0/src/sync/mutex.rs"),
        true,
    );
    assert_eq!(origin, FrameOrigin::RuntimeLib);
}

#[test]
fn test_cargo_registry_third_party() {
    let origin = classify_frame(
        "serde_json::de::from_str",
        Some("/home/user/.cargo/registry/src/index.crates.io-xxx/serde_json-1.0.0/src/de.rs"),
        true,
    );
    assert_eq!(origin, FrameOrigin::ThirdParty);
}

#[test]
fn test_std_by_function_name() {
    let origin = classify_frame("std::thread::spawn", None, true);
    assert_eq!(origin, FrameOrigin::StdLib);
}

#[test]
fn test_unknown_outside_executable() {
    let origin = classify_frame("0x7fff12345678", None, false);
    assert_eq!(origin, FrameOrigin::Unknown);
}

#[test]
fn test_fallback_to_user_code() {
    let origin = classify_frame("my_custom_function", None, true);
    assert_eq!(origin, FrameOrigin::UserCode);
}

#[test]
fn prefix_classification_of_known_crates() {
    assert_eq!(classify_by_function_prefix("tokio::spawn"), Some(FrameOrigin::RuntimeLib));
    assert_eq!(classify_by_function_prefix("core::ptr::drop"), Some(FrameOrigin::StdLib));
    assert_eq!(classify_by_function_prefix("myapp::run"), None);
}

#[test]
fn runtime_paths_and_unresolved_names() {
    assert!(is_runtime_path("/home/u/.cargo/registry/src/x/tokio-1.0.0/src/lib.rs"));
    assert!(!is_runtime_path("/home/u/.cargo/registry/src/x/serde-1.0.0/src/lib.rs"));
    assert!(is_unresolved("<unknown>"));
    assert!(is_unresolved("0x1234"));
    assert!(!is_unresolved("main"));
}

#[test]
fn file_path_decides_before_executable_range() {
    let origin = classify_frame("helper", Some("src/lib.rs"), false);
    assert_eq!(origin, FrameOrigin::UserCode);
    let origin = classify_frame("helper", Some("/usr/lib/libc.so"), true);
    assert_eq!(origin, FrameOrigin::ThirdParty);
}

#[test]
fn diagnostics_warn_once_per_function() {
    let mut d = ClassificationDiagnostics::new();
    assert!(!d.has_low_coverage());
    assert!(d.record_frame("foo", None));
    assert!(!d.record_frame("foo", None));
    assert!(!d.record_frame("bar", Some("src/bar.rs")));
    assert!(!d.record_frame("<unknown>", None));
    assert_eq!(d.frames_with_debug_info(), 1);
    assert_eq!(d.frames_without_debug_info(), 2);
    assert!(d.has_low_coverage());
    assert!(!d.record_classification("baz", true));
    assert!(!d.record_classification("qux", true));
    assert!(!d.has_low_coverage());
}
