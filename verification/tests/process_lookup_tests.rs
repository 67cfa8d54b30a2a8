use hud::process_lookup::{
    extract_comm, file_name, is_match, parse_i32_chars, process_candidate, push_signed_dec,
    select_process, LookupError, ProcessInfo,
};

fn chars(s: &str) -> Vec<char> {
    s.chars().collect()
}

#[test]
fn test_extract_comm() {
    let stat = "1234 (my-app) S 1 1234 1234 0 -1 4194304";
    assert_eq!(extract_comm(stat).ok().unwrap(), "my-app");
}

#[test]
fn test_extract_comm_with_parens() {
    let stat = "1234 (app (v2)) S 1 1234";
    assert_eq!(extract_comm(stat).ok().unwrap(), "app (v2)");
}

#[test]
fn test_is_match() {
    let exe = "/usr/bin/my-server";
    assert!(is_match("my-server", exe, "my-server"));
    assert!(is_match("my-server", exe, "server"));
    assert!(!is_match("my-server", exe, "other"));
}

#[test]
fn malformed_stat_lines_are_rejected() {
    assert!(matches!(extract_comm("1234 my-app S"), Err(LookupError::InvalidStatFormat)));
    assert!(matches!(extract_comm("1234 (my-app S"), Err(LookupError::InvalidStatFormat)));
    assert_eq!(LookupError::InvalidStatFormat.message(), "Invalid stat format");
}

#[test]
fn matching_by_path_basename() {
    assert!(is_match("srv", "/opt/app/bin/daemon", "/usr/local/bin/daemon"));
    assert!(is_match("x", "/opt/app/bin/daemon", "aemo"));
    assert!(!is_match("x", "/opt/app/bin/daemon", "/opt/app/bin/other"));
}

#[test]
fn file_names_of_paths() {
    assert_eq!(file_name(&chars("/usr/bin/ls")), Some(chars("ls")));
    assert_eq!(file_name(&chars("/usr/bin/")), Some(chars("bin")));
    assert_eq!(file_name(&chars("/")), None);
    assert_eq!(file_name(&chars("a/..")), None);
    assert_eq!(file_name(&chars("plain")), Some(chars("plain")));
}

#[test]
fn pids_parse_as_signed_decimals() {
    assert_eq!(parse_i32_chars(&chars("1234")), Some(1234));
    assert_eq!(parse_i32_chars(&chars("-5")), Some(-5));
    assert_eq!(parse_i32_chars(&chars("self")), None);
    assert_eq!(parse_i32_chars(&chars("99999999999")), None);
    let mut s = String::from("pid ");
    push_signed_dec(&mut s, -2147483648);
    assert_eq!(s, "pid -2147483648");
}

#[test]
fn proc_entries_become_candidates() {
    let p = process_candidate("77", "/usr/bin/web", "77 (web) S 1", "web").unwrap();
    assert_eq!(p.pid, 77);
    assert_eq!(p.command, "web");
    assert_eq!(p.exe_path, "/usr/bin/web");
    assert!(process_candidate("self", "/usr/bin/web", "77 (web) S 1", "web").is_none());
    assert!(process_candidate("77", "/usr/bin/web", "77 web S 1", "web").is_none());
    assert!(process_candidate("77", "/usr/bin/web", "77 (web) S 1", "db").is_none());
}

fn info(pid: i32, command: &str) -> ProcessInfo {
    ProcessInfo { pid, exe_path: format!("/bin/{command}"), command: command.to_string() }
}

#[test]
fn selecting_among_matches() {
    let one = select_process(vec![info(5, "app")], "app").ok().unwrap();
    assert_eq!(one.pid, 5);

    let none = select_process(vec![], "ghost");
    match none {
        Err(e) => assert_eq!(
            e.message(),
            "No process matching 'ghost' found.\nCheck running processes with: ps aux | grep ghost"
        ),
        Ok(_) => panic!("expected an error"),
    }

    let many = select_process(vec![info(5, "app"), info(6, "app2")], "app");
    match many {
        Err(e) => assert_eq!(
            e.message(),
            "Multiple processes match 'app':\n  5 (app)\n  6 (app2)\n\nSpecify PID explicitly: hud --pid <PID>"
        ),
        Ok(_) => panic!("expected an error"),
    }
}
