use hud::profiling::stack_resolver::{adjust_address, shared_library_line, top_frame_addr};
use hud::symbolization::memory_maps::{
    classify_maps_line, parse_memory_maps_content, MapsError, MapsLine, MemoryRange,
};
use hud::symbolization::symbolizer::{
    demangle_symbol, resolved_frame, InlinedFrame, SourceLocation,
};
use hud::profiling::stack_resolver::stack_trace_lines;
use hud::symbolization::symbolizer::{frame_from_lookup, DwarfError, ResolvedFrame, Symbolizer};

fn chars(s: &str) -> Vec<char> {
    s.chars().collect()
}

#[test]
fn memory_maps_test_memory_range_contains() {
    let range = MemoryRange { start: 0x1000, end: 0x2000 };

    assert!(range.contains(0x1000));
    assert!(range.contains(0x1500));
    assert!(range.contains(0x1FFF));
    assert!(!range.contains(0x0FFF));
    assert!(!range.contains(0x2000));
    assert!(!range.contains(0x2001));
}

#[test]
fn stack_resolver_test_memory_range_contains() {
    let range = MemoryRange { start: 0x1000, end: 0x2000 };

    assert!(range.contains(0x1000));
    assert!(range.contains(0x1500));
    assert!(range.contains(0x1FFF));
    assert!(!range.contains(0x0FFF));
    assert!(!range.contains(0x2000));
    assert!(!range.contains(0x2001));
}

#[test]
fn test_adjust_address_in_executable() {
    let range = MemoryRange { start: 0x7f00_0000_0000, end: 0x7f00_0010_0000 };
    let (adjusted, in_exec) = adjust_address(Some(range), 0x7f00_0005_0000);
    assert_eq!(adjusted, 0x5_0000);
    assert!(in_exec);
}

#[test]
fn test_adjust_address_shared_library() {
    let range = MemoryRange { start: 0x7f00_0000_0000, end: 0x7f00_0010_0000 };
    let (adjusted, in_exec) = adjust_address(Some(range), 0x7f00_0100_0000);
    assert_eq!(adjusted, 0x7f00_0100_0000);
    assert!(!in_exec);
}

#[test]
fn test_adjust_address_no_range() {
    let (adjusted, in_exec) = adjust_address(None, 0x1234_5678);
    assert_eq!(adjusted, 0x1234_5678);
    assert!(in_exec);
}

const MAPS: &str = "\
55d0c0a00000-55d0c0a10000 r--p 00000000 08:01 1234 /usr/bin/app
55d0c0a10000-55d0c0a80000 r-xp 00010000 08:01 1234 /usr/bin/app
7f1a2b000000-7f1a2b200000 r-xp 00000000 08:01 999 /usr/lib/libc.so.6
55d0c0a80000-55d0c0a90000 rw-p 00080000 08:01 1234 /usr/bin/app
";

#[test]
fn maps_range_covers_all_mappings_of_the_binary() {
    let r = parse_memory_maps_content(MAPS, "/usr/bin/app").unwrap();
    assert_eq!(r, MemoryRange { start: 0x55d0c0a00000, end: 0x55d0c0a90000 });
    let libc = parse_memory_maps_content(MAPS, "libc.so.6").unwrap();
    assert_eq!(libc, MemoryRange { start: 0x7f1a2b000000, end: 0x7f1a2b200000 });
}

#[test]
fn maps_errors() {
    let missing = parse_memory_maps_content(MAPS, "/usr/bin/other").unwrap_err();
    assert_eq!(missing, MapsError::NotFound { binary: "/usr/bin/other".to_string() });
    assert_eq!(missing.message(), "Could not find memory range for /usr/bin/other");
    let bad_start = parse_memory_maps_content("zz-10 r-xp 0 /bin/x\n", "/bin/x").unwrap_err();
    assert_eq!(bad_start, MapsError::BadRangeStart);
    assert_eq!(bad_start.message(), "Failed to parse range start");
    let bad_end = parse_memory_maps_content("10-zz r-xp 0 /bin/x\n", "/bin/x").unwrap_err();
    assert_eq!(bad_end, MapsError::BadRangeEnd);
    assert_eq!(bad_end.message(), "Failed to parse range end");
}

#[test]
fn maps_line_classification() {
    assert!(matches!(
        classify_maps_line(&chars("1000-2000 r-xp 0 /bin/x"), &chars("/bin/x")),
        MapsLine::Range(0x1000, 0x2000)
    ));
    assert!(matches!(classify_maps_line(&chars("1000-2000 /bin/x"), &chars("/bin/x")), MapsLine::Skip));
    assert!(matches!(
        classify_maps_line(&chars("1000-2000 r-xp 0 /bin/y"), &chars("/bin/x")),
        MapsLine::Skip
    ));
}

#[test]
fn top_frame_skips_null_addresses() {
    assert_eq!(top_frame_addr(&[0, 0, 0x40, 0x50]), Some(0x40));
    assert_eq!(top_frame_addr(&[0, 0]), None);
    assert_eq!(top_frame_addr(&[]), None);
}

#[test]
fn shared_library_lines() {
    assert_eq!(shared_library_line(3, 0x7fab), "#3  0x0000000000007fab <shared library>");
    assert_eq!(shared_library_line(12, 0x1), "#12 0x0000000000000001 <shared library>");
}

#[test]
fn demangling_rust_symbols() {
    assert_eq!(demangle_symbol("_ZN4core3fmt5write17h0123456789abcdefE"), "core::fmt::write");
    assert_eq!(demangle_symbol("main"), "main");
}

#[test]
fn resolved_frames_format() {
    let unknown = resolved_frame(0x1234, vec![]);
    assert_eq!(unknown.frames.len(), 1);
    assert_eq!(unknown.frames[0].function, "<unknown>");
    assert_eq!(unknown.format(0), "#0  0x0000000000001234 <unknown>");

    let frames = vec![
        InlinedFrame {
            function: "inner".to_string(),
            location: Some(SourceLocation {
                file: Some("src/a.rs".to_string()),
                line: Some(10),
                column: Some(5),
            }),
        },
        InlinedFrame { function: "outer".to_string(), location: None },
    ];
    let f = resolved_frame(0xabc, frames);
    assert_eq!(
        f.format(2),
        "#2  0x0000000000000abc inner\n                      at src/a.rs:10:5\n     0x0000000000000abc outer"
    );
}

#[test]
fn stack_traces_print_one_line_per_frame() {
    let range = Some(MemoryRange { start: 0x1000, end: 0x2000 });
    let resolve = |off: u64| -> ResolvedFrame {
        if off == 0x10 {
            resolved_frame(off, vec![InlinedFrame { function: "myapp::f".to_string(), location: None }])
        } else {
            resolved_frame(off, vec![])
        }
    };
    let lines = stack_trace_lines(&[0x1010, 0x7fab, 0, 0x1010], range, &resolve);
    assert_eq!(
        lines,
        vec![
            "      #0  0x0000000000000010 myapp::f".to_string(),
            "      #1  0x0000000000007fab <shared library>".to_string(),
        ]
    );
}

#[test]
fn symbolizer_rejects_bytes_that_are_no_object_file() {
    let r = Symbolizer::new(b"not an object file");
    assert!(matches!(r, Err(DwarfError::ObjectParse)));
    assert_eq!(DwarfError::ObjectParse.message(), "Failed to parse object file");
    assert_eq!(DwarfError::DwarfLoad.message(), "Failed to load DWARF debug information");
}

#[test]
fn lookups_become_named_frames() {
    let raw = vec![
        (Some("inner".to_string()), Some(SourceLocation { file: Some("a.rs".to_string()), line: Some(3), column: None })),
        (None, None),
    ];
    let f = frame_from_lookup(0x40, raw);
    assert_eq!(f.addr, 0x40);
    assert_eq!(f.frames.len(), 2);
    assert_eq!(f.frames[0].function, "inner");
    assert_eq!(f.frames[0].location.as_ref().unwrap().line, Some(3));
    assert_eq!(f.frames[1].function, "<unknown>");
    let empty = frame_from_lookup(0x41, vec![]);
    assert_eq!(empty.frames.len(), 1);
    assert_eq!(empty.frames[0].function, "<unknown>");
}
