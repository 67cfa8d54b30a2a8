use hud::classification::FrameOrigin;
use hud::common::{
    ExecutionSpan, TaskEvent, ThreadState, DETECTION_PERF_SAMPLE, EVENT_SCHEDULER_DETECTED,
    NOT_A_WORKER, TRACE_EXECUTION_END, TRACE_EXECUTION_START,
};
use hud::export::chrome_trace::{
    symbol_for, worker_thread_name, ChromeTraceExporter, Phase, Symbol,
};
use hud::profiling::cpu_utils::parse_online_cpus;
use hud::profiling::event_display::{
    execution_event_name, is_long_block, thread_state_label, worker_label, DetectionStats,
};
use hud::profiling::event_processor::{
    drops_execution_event, drops_scheduler_event, frames_to_resolve, has_user_code,
    is_blocking_pool_stack, is_display_candidate, stack_frame_for, trace_event_from,
    EventCounters, EventRoute,
};
use hud::profiling::scheduler::{
    sample_passes_filter, split_pid_tgid, thread_off_cpu, thread_on_cpu, threshold_ns,
    worker_id_of, worker_record, DEFAULT_THRESHOLD_NS,
};
use hud::symbolization::memory_maps::MemoryRange;
use hud::symbolization::symbolizer::{InlinedFrame, SourceLocation};
use hud::trace_data::StackFrame;
use std::sync::Arc;
use hud::profiling::scheduler::{
    blocking_marker_event, cpu_sample_event, execution_end_event, execution_start_event,
    scheduler_blocking_event, EventSource, DETECTION_MARKER,
};
use hud::profiling::event_processor::{resolve_full_stack, resolve_stack_frames};
use hud::trace_data::StackCache;
use hud::common::TASK_EVENT_SIZE;

fn task_event(event_type: u32, stack_id: i64, worker_id: u32, ts: u64) -> TaskEvent {
    TaskEvent {
        pid: 10,
        tid: 11,
        timestamp_ns: ts,
        event_type,
        stack_id,
        duration_ns: 0,
        worker_id,
        cpu_id: 2,
        thread_state: 0,
        task_id: 0,
        category: 0,
        detection_method: DETECTION_PERF_SAMPLE,
        is_tokio_worker: 1,
        _padding: [0; 5],
    }
}

fn frame(function: &str, user: bool) -> StackFrame {
    StackFrame {
        function: function.to_string(),
        file: None,
        line: None,
        origin: if user { FrameOrigin::UserCode } else { FrameOrigin::RuntimeLib },
        is_user_code: user,
    }
}

fn located(function: &str, file: Option<&str>, line: Option<u32>) -> InlinedFrame {
    InlinedFrame {
        function: function.to_string(),
        location: Some(SourceLocation { file: file.map(String::from), line, column: None }),
    }
}

#[test]
fn online_cpu_lists() {
    let cpus: Vec<u32> = parse_online_cpus("0-3,6\n").unwrap().iter().map(|c| c.0).collect();
    assert_eq!(cpus, vec![0, 1, 2, 3, 6]);
    let one: Vec<u32> = parse_online_cpus("0").unwrap().iter().map(|c| c.0).collect();
    assert_eq!(one, vec![0]);
    assert!(parse_online_cpus("0-x").is_err());
    assert!(parse_online_cpus("a").is_err());
}

#[test]
fn event_display_texts() {
    assert_eq!(thread_state_label(0), "TASK_RUNNING (CPU blocking)");
    assert_eq!(thread_state_label(1), "TASK_INTERRUPTIBLE (I/O wait)");
    assert_eq!(thread_state_label(2), "TASK_UNINTERRUPTIBLE");
    assert_eq!(thread_state_label(7), "UNKNOWN");
    assert_eq!(worker_label(NOT_A_WORKER), "N/A");
    assert_eq!(worker_label(3), "3");
    assert_eq!(execution_event_name(true), "EXEC_START");
    assert_eq!(execution_event_name(false), "EXEC_END");
    assert!(is_long_block(10_000_001));
    assert!(!is_long_block(10_000_000));
    assert_eq!(DetectionStats::default().scheduler_detected, 0);
}

#[test]
fn events_are_routed_and_counted() {
    let mut c = EventCounters::new();
    assert_eq!(c.route_event(&task_event(EVENT_SCHEDULER_DETECTED, 1, 0, 1)), EventRoute::SchedulerDetected);
    assert_eq!(c.route_event(&task_event(TRACE_EXECUTION_START, 4, 0, 2)), EventRoute::TraceExecution);
    assert_eq!(c.route_event(&task_event(TRACE_EXECUTION_END, -1, 0, 3)), EventRoute::TraceExecution);
    assert_eq!(c.route_event(&task_event(99, 4, 0, 4)), EventRoute::Unknown);
    assert_eq!(c.event_count, 4);
    assert_eq!(c.scheduler_event_count, 1);
    assert_eq!(c.perf_sample_count, 2);
    assert_eq!(c.perf_stack_ok, 1);
    assert_eq!(c.perf_stack_fail, 1);
}

#[test]
fn blocking_pool_stacks_are_dropped() {
    let pool = vec![frame("std::thread::run", false), frame("tokio::runtime::blocking::pool::Inner::run", false)];
    let worker = vec![
        frame("tokio::runtime::blocking::pool::Inner::run", false),
        frame("tokio::runtime::scheduler::multi_thread::worker::run", false),
    ];
    assert!(is_blocking_pool_stack(&pool));
    assert!(!is_blocking_pool_stack(&worker));
    assert!(drops_scheduler_event(NOT_A_WORKER, Some(&pool)));
    assert!(!drops_scheduler_event(2, Some(&pool)));
    assert!(!drops_scheduler_event(NOT_A_WORKER, None));
    let start = task_event(TRACE_EXECUTION_START, 4, NOT_A_WORKER, 1);
    let end = task_event(TRACE_EXECUTION_END, 4, NOT_A_WORKER, 1);
    assert!(drops_execution_event(&start, Some(&pool)));
    assert!(!drops_execution_event(&end, Some(&pool)));
    assert!(!is_display_candidate(&start));
    assert!(is_display_candidate(&task_event(TRACE_EXECUTION_START, 4, 1, 1)));
    assert!(!is_display_candidate(&task_event(TRACE_EXECUTION_START, -3, 1, 1)));
}

#[test]
fn stacks_end_at_the_first_null_address() {
    assert_eq!(frames_to_resolve(&[5, 6, 0, 7]), vec![5, 6]);
    assert_eq!(frames_to_resolve(&[0, 7]), Vec::<u64>::new());
    assert_eq!(frames_to_resolve(&[1, 2]), vec![1, 2]);
}

#[test]
fn frames_for_addresses() {
    let inner = located("myapp::handler", Some("src/handler.rs"), Some(42));
    let f = stack_frame_for(0x10, true, Some(&inner));
    assert_eq!(f.function, "myapp::handler");
    assert_eq!(f.file.as_deref(), Some("src/handler.rs"));
    assert_eq!(f.line, Some(42));
    assert_eq!(f.origin, FrameOrigin::UserCode);
    assert!(f.is_user_code);

    let tokio = located("tokio::runtime::park", None, None);
    let f = stack_frame_for(0x10, true, Some(&tokio));
    assert_eq!(f.origin, FrameOrigin::RuntimeLib);
    assert!(!f.is_user_code);

    let f = stack_frame_for(0xbeef, true, None);
    assert_eq!(f.function, "0xbeef");
    assert_eq!(f.origin, FrameOrigin::Unknown);
    let f = stack_frame_for(0xbeef, false, Some(&inner));
    assert_eq!(f.function, "<library> 0xbeef");
}

#[test]
fn samples_are_named_after_user_code() {
    let stack = Arc::new(vec![
        frame("tokio::sync::Mutex::lock", false),
        StackFrame {
            function: "myapp::work".to_string(),
            file: Some("src/work.rs".to_string()),
            line: Some(7),
            origin: FrameOrigin::UserCode,
            is_user_code: true,
        },
        frame("myapp::main", true),
    ]);
    let ev = task_event(TRACE_EXECUTION_START, 9, 1, 500);
    assert!(has_user_code(&Some(stack.clone())));
    assert!(!has_user_code(&None));
    let t = trace_event_from(&ev, Some(stack.clone()));
    assert_eq!(t.name, "myapp::work");
    assert_eq!(t.file.as_deref(), Some("src/work.rs"));
    assert_eq!(t.line, Some(7));
    assert_eq!(t.worker_id, 1);
    assert_eq!(t.cpu, 2);
    assert_eq!(t.timestamp_ns, 500);
    assert_eq!(t.detection_method, Some(DETECTION_PERF_SAMPLE as u32));

    let library_only = Arc::new(vec![frame("tokio::a", false), frame("tokio::b", false)]);
    assert!(!has_user_code(&Some(library_only.clone())));
    assert_eq!(trace_event_from(&ev, Some(library_only)).name, "tokio::a");
    assert_eq!(trace_event_from(&ev, None).name, "execution");
}

#[test]
fn scheduler_switches() {
    assert_eq!(threshold_ns(None), DEFAULT_THRESHOLD_NS);
    assert_eq!(threshold_ns(Some(7)), 7);
    assert_eq!(split_pid_tgid((5u64 << 32) | 9), (5, 9));
    assert!(sample_passes_filter(3, 0));
    assert!(sample_passes_filter(3, 3));
    assert!(!sample_passes_filter(3, 4));
    assert_eq!(worker_id_of(Some(2)), 2);
    assert_eq!(worker_id_of(None), NOT_A_WORKER);

    let span = ExecutionSpan { start_time_ns: 100, stack_id: 3, cpu_id: 1, _padding: [0; 4] };
    let off = thread_off_cpu(None, Some(span), true, 0, 150);
    assert_eq!(off.span_end, Some((50, 3)));
    assert_eq!(off.thread.last_off_cpu_ns, 150);
    let off_other = thread_off_cpu(None, Some(span), false, 1, 150);
    assert_eq!(off_other.span_end, None);

    // Runnable worker switched off for 10 ms: blocking above a 5 ms threshold.
    let on = thread_on_cpu(Some(off.thread), true, 10_000_150, DEFAULT_THRESHOLD_NS, 8, 1);
    assert_eq!(on.blocking, Some(10_000_000));
    let s = on.span.unwrap();
    assert_eq!((s.start_time_ns, s.stack_id, s.cpu_id), (10_000_150, 8, 1));
    let t: ThreadState = on.thread.unwrap();
    assert_eq!(t.last_on_cpu_ns, 10_000_150);
    assert_eq!(t.off_cpu_duration, 10_000_000);

    // Waiting for I/O is not blocking.
    let io = thread_off_cpu(None, None, true, 1, 150);
    assert_eq!(thread_on_cpu(Some(io.thread), true, 20_000_150, DEFAULT_THRESHOLD_NS, 8, 1).blocking, None);
    let not_worker = thread_on_cpu(None, false, 5, 1, 1, 1);
    assert!(not_worker.span.is_none() && not_worker.thread.is_none());

    let rec = worker_record(4, 77, b"tokio-runtime-worker");
    assert_eq!(rec.worker_id, 4);
    assert_eq!(rec.pid, 77);
    assert_eq!(&rec.comm, b"tokio-runtime-wo");
    let short = worker_record(0, -1, b"w");
    assert_eq!(short.comm[0], b'w');
    assert_eq!(short.comm[1], 0);
    assert_eq!(short.pid, u32::MAX);
}

#[test]
fn chrome_trace_symbols() {
    let r = located("myapp::f", Some("src/f.rs"), Some(3));
    let s = symbol_for(0x40, true, Some(&r));
    assert_eq!((s.function.as_str(), s.file.as_deref(), s.line), ("myapp::f", Some("src/f.rs"), Some(3)));
    assert_eq!(symbol_for(0x40, true, None).function, "0x40");
    assert_eq!(symbol_for(0x40, false, Some(&r)).function, "<shared:0x40>");
    assert_eq!(worker_thread_name(3), "Worker 3");
}

#[test]
fn chrome_trace_export() {
    let mut ex = ChromeTraceExporter::new();
    ex.set_memory_range(MemoryRange { start: 0x1000, end: 0x2000 });

    let begin = task_event(TRACE_EXECUTION_START, 5, 1, 1_000);
    assert_eq!(ex.symbol_request(&begin, Some(0x1500)), Some((0x1500, 0x500, true)));
    assert_eq!(ex.symbol_request(&begin, None), None);
    let sym = Symbol { function: "myapp::f".to_string(), file: Some("src/f.rs".to_string()), line: Some(3) };
    ex.add_event(&begin, Some(0x1500), Some(sym));
    assert_eq!(ex.symbol_request(&begin, Some(0x1500)), None);

    let end = task_event(TRACE_EXECUTION_END, 5, 1, 4_000);
    ex.add_event(&end, None, None);
    let again = task_event(TRACE_EXECUTION_START, 5, 1, 6_000);
    ex.add_event(&again, Some(0x1500), None);
    let no_stack = task_event(TRACE_EXECUTION_START, -1, 1, 7_000);
    ex.add_event(&no_stack, None, None);
    let no_frame = task_event(TRACE_EXECUTION_START, 12, 1, 8_000);
    ex.add_event(&no_frame, None, None);
    ex.add_event(&task_event(EVENT_SCHEDULER_DETECTED, 1, 1, 9_000), None, None);

    assert_eq!(ex.event_count(), 5);
    let evs = ex.trace_events();
    assert_eq!(evs[0].name, "myapp::f");
    assert_eq!(evs[0].ph, Phase::Begin);
    assert_eq!(evs[0].ts_ns, 0);
    assert_eq!(evs[0].args.file.as_deref(), Some("src/f.rs"));
    assert_eq!(evs[1].name, "execution");
    assert_eq!(evs[1].ph, Phase::End);
    assert_eq!(evs[1].ts_ns, 3_000);
    assert_eq!(evs[2].name, "myapp::f");
    assert_eq!(evs[3].name, "execution");
    assert_eq!(evs[4].name, "trace_12");
    assert_eq!(ex.thread_names(), vec![(10, 11, 1)]);
}

#[test]
fn full_stacks_are_resolved_once() {
    let range = Some(MemoryRange { start: 0x1000, end: 0x2000 });
    let resolve = |off: u64| -> Option<InlinedFrame> {
        if off == 0x10 {
            Some(located("myapp::handler", Some("src/h.rs"), Some(5)))
        } else {
            None
        }
    };
    let frames = resolve_stack_frames(&[0x1010, 0x1500, 0x7000, 0, 0x1010], range, &resolve);
    assert_eq!(frames.len(), 3);
    assert_eq!(frames[0].function, "myapp::handler");
    assert!(frames[0].is_user_code);
    assert_eq!(frames[1].function, "0x1500");
    assert_eq!(frames[2].function, "<library> 0x7000");

    let mut cache = StackCache::new();
    assert!(resolve_full_stack(&mut cache, -2, || Some(vec![0x1010]), range, &resolve).is_none());
    assert!(resolve_full_stack(&mut cache, 4, || None, range, &resolve).is_none());
    assert!(resolve_full_stack(&mut cache, 4, || Some(vec![0]), range, &resolve).is_none());
    assert!(cache.is_empty());
    let first = resolve_full_stack(&mut cache, 4, || Some(vec![0x1010, 0x7000]), range, &resolve).unwrap();
    assert_eq!(first.len(), 2);
    let mut fetched = false;
    let again = resolve_full_stack(&mut cache, 4, || { fetched = true; None }, range, &resolve).unwrap();
    assert!(!fetched);
    assert!(Arc::ptr_eq(&first, &again));
    assert_eq!(cache.len(), 1);
}

#[test]
fn event_records_decode_little_endian() {
    let mut b: Vec<u8> = Vec::new();
    b.extend_from_slice(&1234u32.to_le_bytes());
    b.extend_from_slice(&1240u32.to_le_bytes());
    b.extend_from_slice(&0x0102_0304_0506_0708u64.to_le_bytes());
    b.extend_from_slice(&TRACE_EXECUTION_START.to_le_bytes());
    b.extend_from_slice(&[0u8; 4]);
    b.extend_from_slice(&(-3i64).to_le_bytes());
    b.extend_from_slice(&5_000_000u64.to_le_bytes());
    b.extend_from_slice(&7u32.to_le_bytes());
    b.extend_from_slice(&3u32.to_le_bytes());
    b.extend_from_slice(&1i64.to_le_bytes());
    b.extend_from_slice(&99u64.to_le_bytes());
    b.extend_from_slice(&[0, DETECTION_PERF_SAMPLE, 1, 0, 0, 0, 0, 0]);
    assert_eq!(b.len(), TASK_EVENT_SIZE);
    let e = TaskEvent::from_bytes(&b).unwrap();
    assert_eq!((e.pid, e.tid), (1234, 1240));
    assert_eq!(e.timestamp_ns, 0x0102_0304_0506_0708);
    assert_eq!(e.event_type, TRACE_EXECUTION_START);
    assert_eq!(e.stack_id, -3);
    assert_eq!(e.duration_ns, 5_000_000);
    assert_eq!((e.worker_id, e.cpu_id), (7, 3));
    assert_eq!(e.thread_state, 1);
    assert_eq!(e.task_id, 99);
    assert_eq!((e.category, e.detection_method, e.is_tokio_worker), (0, DETECTION_PERF_SAMPLE, 1));
    assert!(TaskEvent::from_bytes(&b[..71]).is_none());
}

#[test]
fn probe_events_carry_their_source() {
    let src = EventSource { pid: 1, tid: 2, worker_id: 3, cpu_id: 0, task_id: 44 };
    let b = scheduler_blocking_event(&src, 100, 7_000_000, 9, 0);
    assert_eq!((b.event_type, b.detection_method, b.duration_ns, b.stack_id), (EVENT_SCHEDULER_DETECTED, 2, 7_000_000, 9));
    assert_eq!((b.pid, b.tid, b.worker_id, b.task_id, b.is_tokio_worker), (1, 2, 3, 44, 1));
    let s = execution_start_event(&src, 5, 4);
    assert_eq!((s.event_type, s.detection_method, s.duration_ns), (TRACE_EXECUTION_START, 3, 0));
    let e = execution_end_event(&src, 9, 4, 4);
    assert_eq!((e.event_type, e.duration_ns, e.timestamp_ns), (TRACE_EXECUTION_END, 4, 9));
    let c = cpu_sample_event(&src, 11, -1);
    assert_eq!((c.event_type, c.detection_method, c.stack_id), (TRACE_EXECUTION_START, DETECTION_PERF_SAMPLE, -1));
}

#[test]
fn blocking_marker_flags_registered_workers_only() {
    let worker = EventSource { pid: 1, tid: 2, worker_id: 0, cpu_id: 5, task_id: 0 };
    let w = blocking_marker_event(&worker, 70, 7, 12);
    assert_eq!((w.event_type, w.detection_method, w.is_tokio_worker, w.stack_id), (7, DETECTION_MARKER, 1, 12));
    assert_eq!((w.duration_ns, w.thread_state, w.timestamp_ns, w.cpu_id), (0, 0, 70, 5));
    let other = EventSource { pid: 1, tid: 3, worker_id: NOT_A_WORKER, cpu_id: 5, task_id: 0 };
    let o = blocking_marker_event(&other, 71, 8, -1);
    assert_eq!((o.event_type, o.is_tokio_worker, o.worker_id), (8, 0, NOT_A_WORKER));
}

#[test]
fn counters_stop_at_the_limit() {
    let mut c = EventCounters::new();
    c.event_count = usize::MAX;
    let route = c.route_event(&task_event(EVENT_SCHEDULER_DETECTED, 1, 0, 1));
    assert_eq!(route, EventRoute::SchedulerDetected);
    assert_eq!(c.event_count, usize::MAX);
    assert_eq!(c.scheduler_event_count, 0);
}
