use hud::preflight::{
    check_binary_exists, check_debug_symbols, check_kernel_version, check_privileges,
    check_proc_access, check_process_exists, run_preflight_checks, symbol_warning,
    PreflightError, SymbolWarning, SystemFacts,
};
use std::path::Path;

/// A 64-bit little-endian ELF header with no sections at all.
fn bare_elf_header() -> Vec<u8> {
    let mut v: Vec<u8> = vec![0x7f, b'E', b'L', b'F', 2, 1, 1, 0];
    v.extend_from_slice(&[0u8; 8]);
    v.extend_from_slice(&2u16.to_le_bytes()); // e_type
    v.extend_from_slice(&62u16.to_le_bytes()); // e_machine
    v.extend_from_slice(&1u32.to_le_bytes()); // e_version
    v.extend_from_slice(&0u64.to_le_bytes()); // e_entry
    v.extend_from_slice(&0u64.to_le_bytes()); // e_phoff
    v.extend_from_slice(&0u64.to_le_bytes()); // e_shoff
    v.extend_from_slice(&0u32.to_le_bytes()); // e_flags
    v.extend_from_slice(&64u16.to_le_bytes()); // e_ehsize
    v.extend_from_slice(&56u16.to_le_bytes()); // e_phentsize
    v.extend_from_slice(&0u16.to_le_bytes()); // e_phnum
    v.extend_from_slice(&64u16.to_le_bytes()); // e_shentsize
    v.extend_from_slice(&0u16.to_le_bytes()); // e_shnum
    v.extend_from_slice(&0u16.to_le_bytes()); // e_shstrndx
    v
}

#[test]
fn test_kernel_version_check() {
    let result = check_kernel_version("Linux version 6.1.0-13-amd64 (gcc 12.2.0) #1 SMP");
    let _ = result;
}

#[test]
fn test_binary_not_found() {
    let path = "/nonexistent/path/to/binary";
    let p = Path::new(path);
    let result = check_binary_exists(path, p.exists(), p.is_file());
    assert!(result.is_err());
    let err = result.unwrap_err().message();
    assert!(err.contains("Binary not found"));
}

#[test]
fn test_process_not_found() {
    let pid = 999_999_999;
    let exists = Path::new("/proc/999999999").exists();
    let result = check_process_exists(pid, exists);
    assert!(result.is_err());
    let err = result.unwrap_err().message();
    assert!(err.contains("not found"));
}

#[test]
fn kernel_versions_around_the_minimum() {
    assert!(check_kernel_version("Linux version 5.8.0-generic (x) #1").is_ok());
    assert!(check_kernel_version("Linux version 5.15.0-91-generic (x) #1").is_ok());
    match check_kernel_version("Linux version 5.7.19 (x) #1") {
        Err(PreflightError::KernelTooOld { major, minor, release }) => {
            assert_eq!((major, minor), (5, 7));
            assert_eq!(release, "5.7.19");
        }
        _ => panic!("expected KernelTooOld"),
    }
    let err = check_kernel_version("Linux version 4.19.0 (x)").unwrap_err();
    assert_eq!(
        err.message(),
        "Kernel version 4.19 is too old.\n\nhud requires Linux 5.8 or newer for eBPF ring buffer support.\nCurrent kernel: 4.19.0"
    );
    // An unreadable release is not held against the system.
    assert!(check_kernel_version("garbage").is_ok());
}

#[test]
fn privileges_need_root() {
    assert!(check_privileges(0).is_ok());
    let err = check_privileges(1000).unwrap_err();
    assert!(matches!(err, PreflightError::PermissionDenied));
    assert!(err.message().starts_with("Permission denied"));
}

#[test]
fn directory_is_not_a_file() {
    let err = check_binary_exists("/tmp", true, false).unwrap_err();
    assert_eq!(
        err.message(),
        "Not a file: /tmp\n\n--target must point to an executable file, not a directory."
    );
    assert!(check_binary_exists("/bin/ls", true, true).is_ok());
}

#[test]
fn process_errors_name_the_pid() {
    let err = check_process_exists(42, false).unwrap_err();
    assert_eq!(
        err.message(),
        "Process 42 not found.\n\nIs the process still running? Check with: ps -p 42"
    );
    assert!(check_process_exists(42, true).is_ok());
    let err = check_proc_access(-7, false).unwrap_err();
    assert!(err.message().starts_with("Cannot read /proc/-7/maps"));
    assert!(check_proc_access(7, true).is_ok());
}

#[test]
fn symbol_warnings_from_section_sizes() {
    assert_eq!(symbol_warning(None, None), Some(SymbolWarning::Stripped));
    assert_eq!(symbol_warning(Some(0), Some(0)), Some(SymbolWarning::Stripped));
    assert_eq!(symbol_warning(None, Some(10)), Some(SymbolWarning::NoDebugInfo));
    assert_eq!(symbol_warning(Some(5), None), None);
    assert_eq!(
        SymbolWarning::NoDebugInfo.message(),
        "no DWARF debug info, source locations unavailable"
    );
}

#[test]
fn debug_symbols_of_object_bytes() {
    // Not an object file: nothing to warn about.
    assert_eq!(check_debug_symbols(&[1, 2, 3, 4], false), None);
    // An ELF file without any section is stripped.
    let elf = bare_elf_header();
    assert_eq!(check_debug_symbols(&elf, false), Some(SymbolWarning::Stripped));
    assert_eq!(check_debug_symbols(&elf, true), None);
}

#[test]
fn preflight_runs_checks_in_order() {
    let facts = SystemFacts {
        euid: 0,
        kernel_version: "Linux version 6.2.0 (x) #1".to_string(),
        binary_exists: true,
        binary_is_file: true,
    };
    let elf = bare_elf_header();
    assert_eq!(
        run_preflight_checks("/bin/app", false, &facts, Some(&elf)).ok(),
        Some(Some(SymbolWarning::Stripped))
    );
    assert_eq!(run_preflight_checks("/bin/app", true, &facts, None).ok(), Some(None));
    assert!(matches!(
        run_preflight_checks("/bin/app", false, &facts, None),
        Err(PreflightError::BinaryUnreadable { .. })
    ));
    let user = SystemFacts { euid: 5, ..facts };
    assert!(matches!(
        run_preflight_checks("/bin/app", true, &user, None),
        Err(PreflightError::PermissionDenied)
    ));
    let old = SystemFacts {
        euid: 0,
        kernel_version: "Linux version 4.4.0 (x)".to_string(),
        binary_exists: false,
        binary_is_file: false,
    };
    assert!(matches!(
        run_preflight_checks("/bin/app", true, &old, None),
        Err(PreflightError::KernelTooOld { .. })
    ));
}
