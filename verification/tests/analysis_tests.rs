use hud::analysis::hotspot_analyzer::{analyze_hotspots, FunctionHotspot, HotspotStats};
use hud::classification::FrameOrigin;
use hud::trace_data::{trace_from_records, LiveData, StackCache, StackFrame, TraceData, TraceEvent, TraceRecord};
use std::sync::Arc;

fn event(name: &str, worker_id: u32, tid: u32, ts_ns: u64, file: Option<&str>, line: Option<u32>) -> TraceEvent {
    TraceEvent {
        name: name.to_string(),
        worker_id,
        tid,
        timestamp_ns: ts_ns,
        cpu: worker_id,
        detection_method: None,
        file: file.map(String::from),
        line,
        stack_id: -1,
        call_stack: None,
    }
}

fn create_test_data() -> TraceData {
    TraceData {
        events: vec![
            event("function_a", 0, 100, 1_000_000_000, Some("src/a.rs"), Some(10)),
            event("function_a", 1, 101, 2_000_000_000, Some("src/a.rs"), Some(10)),
            event("function_b", 0, 100, 3_000_000_000, Some("src/b.rs"), Some(20)),
        ],
        workers: vec![0, 1],
        duration_ns: 3_000_000_000,
    }
}

fn worker_count(h: &FunctionHotspot, w: u32) -> usize {
    h.workers.iter().find(|(id, _)| *id == w).map(|(_, c)| *c).unwrap()
}

fn frame(function: &str, user: bool) -> StackFrame {
    StackFrame {
        function: function.to_string(),
        file: None,
        line: None,
        origin: if user { FrameOrigin::UserCode } else { FrameOrigin::StdLib },
        is_user_code: user,
    }
}

#[test]
fn test_analyze_hotspots_aggregates_by_function() {
    let data = create_test_data();
    let hotspots = analyze_hotspots(&data);

    assert_eq!(hotspots.len(), 2);
    assert_eq!(hotspots[0].name, "function_a");
    assert_eq!(hotspots[0].count, 2);
    assert_eq!(hotspots[1].name, "function_b");
    assert_eq!(hotspots[1].count, 1);
}

#[test]
fn test_analyze_hotspots_calculates_percentages() {
    let data = create_test_data();
    let hotspots = analyze_hotspots(&data);
    let total: usize = hotspots.iter().map(|h| h.count).sum();
    let pct = |h: &FunctionHotspot| h.count as f64 / total as f64 * 100.0;

    assert!((pct(&hotspots[0]) - 66.666).abs() < 0.01);
    assert!((pct(&hotspots[1]) - 33.333).abs() < 0.01);
}

#[test]
fn test_analyze_hotspots_tracks_workers() {
    let data = create_test_data();
    let hotspots = analyze_hotspots(&data);

    let func_a = &hotspots[0];
    assert_eq!(func_a.workers.len(), 2);
    assert_eq!(worker_count(func_a, 0), 1);
    assert_eq!(worker_count(func_a, 1), 1);

    let func_b = &hotspots[1];
    assert_eq!(func_b.workers.len(), 1);
    assert_eq!(worker_count(func_b, 0), 1);
}

#[test]
fn test_analyze_hotspots_preserves_source_location() {
    let data = create_test_data();
    let hotspots = analyze_hotspots(&data);

    assert_eq!(hotspots[0].file, Some("src/a.rs".to_string()));
    assert_eq!(hotspots[0].line, Some(10));
    assert_eq!(hotspots[1].file, Some("src/b.rs".to_string()));
    assert_eq!(hotspots[1].line, Some(20));
}

#[test]
fn scheduler_time_is_not_a_hotspot() {
    let mut data = create_test_data();
    data.events.push(event("execution", 1, 101, 4_000_000_000, None, None));
    data.events.push(event("execution", 1, 101, 5_000_000_000, None, None));
    data.events.push(event("execution", 1, 101, 6_000_000_000, None, None));
    let hotspots = analyze_hotspots(&data);
    assert_eq!(hotspots.len(), 2);
    assert_eq!(hotspots.iter().map(|h| h.count).sum::<usize>(), 3);
}

#[test]
fn call_stacks_are_kept_per_distinct_stack() {
    let s1 = Arc::new(vec![frame("function_a", true), frame("main", true)]);
    let s2 = Arc::new(vec![frame("function_a", true), frame("worker", false)]);
    let mut e1 = event("function_a", 0, 1, 1, None, None);
    e1.stack_id = 7;
    e1.call_stack = Some(s1.clone());
    let mut e2 = event("function_a", 0, 1, 2, None, None);
    e2.stack_id = 8;
    e2.call_stack = Some(s2.clone());
    let mut e3 = event("function_a", 0, 1, 3, None, None);
    e3.stack_id = 8;
    e3.call_stack = Some(s2.clone());
    let data = TraceData { events: vec![e1.clone(), e2.clone(), e3.clone()], workers: vec![0], duration_ns: 2 };

    // The snapshot lists the most common call path first.
    let batch = analyze_hotspots(&data);
    assert_eq!(batch[0].call_stacks.len(), 2);
    assert_eq!(batch[0].call_stacks[0][1].function, "worker");
    assert_eq!(batch[0].call_stacks[1][1].function, "main");

    // So do the live statistics.
    let mut stats = HotspotStats::new();
    stats.record_event(&e1);
    stats.record_event(&e2);
    stats.record_event(&e3);
    let live = stats.to_hotspots();
    assert_eq!(live[0].count, 3);
    assert_eq!(live[0].call_stacks[0][1].function, "worker");
    assert_eq!(live[0].call_stacks[1][1].function, "main");
}

#[test]
fn live_statistics_match_the_snapshot() {
    let data = create_test_data();
    let mut stats = HotspotStats::new();
    for e in &data.events {
        stats.record_event(e);
    }
    stats.record_event(&event("execution", 0, 100, 9, None, None));
    assert_eq!(stats.total_samples(), 3);
    let live = stats.to_hotspots();
    let batch = analyze_hotspots(&data);
    assert_eq!(live.len(), batch.len());
    for (a, b) in live.iter().zip(batch.iter()) {
        assert_eq!(a.name, b.name);
        assert_eq!(a.count, b.count);
        assert_eq!(a.file, b.file);
        assert_eq!(a.line, b.line);
    }
}

#[test]
fn stack_cache_reads_back_what_was_written() {
    let mut cache = StackCache::new();
    assert!(cache.is_empty());
    assert!(cache.get(3).is_none());
    let stored = cache.insert(3, vec![frame("f", true)]);
    assert_eq!(cache.len(), 1);
    let got = cache.get(3).unwrap();
    assert!(Arc::ptr_eq(&stored, &got));

    let mut calls = 0;
    let again = cache.get_or_insert_with(3, || {
        calls += 1;
        vec![]
    });
    assert_eq!(calls, 0);
    assert_eq!(again[0].function, "f");
    let fresh = cache.get_or_insert_with(4, || vec![frame("g", false)]);
    assert_eq!(fresh[0].function, "g");
    assert_eq!(cache.len(), 2);
}

#[test]
fn live_data_tracks_workers_and_duration() {
    let mut live = LiveData::new();
    assert_eq!(live.event_count(), 0);
    live.add_event(event("f", 3, 1, 1_000, None, None));
    live.add_event(event("g", 1, 2, 5_000, None, None));
    live.add_event(event("h", 3, 1, 9_000, None, None));
    assert_eq!(live.event_count(), 3);
    let snapshot = live.as_trace_data();
    assert_eq!(snapshot.workers, vec![1, 3]);
    assert_eq!(snapshot.duration_ns, 8_000);
    assert_eq!(snapshot.events[1].name, "g");
}

#[test]
fn recording_one_sample_changes_only_its_function() {
    let mut stats = HotspotStats::new();
    stats.record_event(&event("function_a", 0, 1, 1, Some("src/a.rs"), Some(10)));
    stats.record_event(&event("function_b", 1, 2, 2, Some("src/b.rs"), Some(20)));
    stats.record_event(&event("execution", 1, 2, 3, None, None));
    assert_eq!(stats.total_samples(), 2);
    stats.record_event(&event("function_a", 1, 2, 4, Some("src/other.rs"), Some(99)));
    assert_eq!(stats.total_samples(), 3);
    let hs = stats.to_hotspots();
    let a = hs.iter().find(|h| h.name == "function_a").unwrap();
    let b = hs.iter().find(|h| h.name == "function_b").unwrap();
    assert_eq!((a.count, worker_count(a, 0), worker_count(a, 1)), (2, 1, 1));
    assert_eq!((a.file.as_deref(), a.line), (Some("src/a.rs"), Some(10)));
    assert_eq!((b.count, worker_count(b, 1), b.line), (1, 1, Some(20)));
}

fn record(phase: &str, name: Option<&str>, worker_id: Option<u64>, ts_ns: u64) -> TraceRecord {
    TraceRecord {
        phase: Some(phase.to_string()),
        name: name.map(String::from),
        worker_id,
        tid: Some(7),
        timestamp_ns: ts_ns,
        cpu_id: None,
        detection_method: Some(2),
        file: Some("src/a.rs".to_string()),
        line: Some(42),
    }
}

#[test]
fn saved_trace_keeps_begin_events() {
    let records = vec![
        record("B", Some("function_a"), Some(2), 3_000),
        record("E", Some("function_a"), Some(2), 4_000),
        record("B", None, None, 9_000),
        record("B", Some("function_b"), Some(1), 5_000),
        record("M", Some("thread_name"), Some(5), 0),
    ];
    let data = trace_from_records(&records);
    assert_eq!(data.events.len(), 3);
    assert_eq!(data.events[0].name, "function_a");
    assert_eq!((data.events[0].worker_id, data.events[0].tid, data.events[0].cpu), (2, 7, 0));
    assert_eq!(data.events[0].line, Some(42));
    assert_eq!(data.events[0].detection_method, Some(2));
    assert_eq!(data.events[1].name, "unknown");
    assert_eq!(data.events[1].worker_id, 0);
    assert_eq!(data.workers, vec![0, 1, 2]);
    assert_eq!(data.duration_ns, 9_000);
    let empty = trace_from_records(&vec![]);
    assert!(empty.events.is_empty() && empty.workers.is_empty());
    assert_eq!(empty.duration_ns, 0);
}
