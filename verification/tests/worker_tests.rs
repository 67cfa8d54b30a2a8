use hud::profiling::worker_discovery::{
    collect_workers, discover_worker_prefix, identify_tokio_workers, log_discovery_failure,
    sorted_distinct_names, strip_numeric_suffix,
};
use hud::profiling::worker_sampling::{
    classify_frame_names, upgrade_class, workers_from_classes, ThreadClass,
};
use hud::profiling::worker_discovery::{finish_discovery, start_discovery};
use hud::profiling::worker_discovery::WorkerInfo;
use hud::domain::types::Tid;
use hud::profiling::worker_sampling::{classify_thread_stack, StackSampler};
use hud::symbolization::memory_maps::MemoryRange;

fn threads(names: &[(u32, &str)]) -> Vec<(u32, String)> {
    names.iter().map(|(t, n)| (*t, n.to_string())).collect()
}

#[test]
fn test_strip_suffix_with_numbers() {
    assert_eq!(strip_numeric_suffix("my-pool-0").as_deref(), Some("my-pool"));
    assert_eq!(strip_numeric_suffix("my-pool-12").as_deref(), Some("my-pool"));
    assert_eq!(strip_numeric_suffix("a-b-c-99").as_deref(), Some("a-b-c"));
}

#[test]
fn test_strip_suffix_without_numbers() {
    assert_eq!(strip_numeric_suffix("main"), None);
    assert_eq!(strip_numeric_suffix("signal-handler"), None);
    assert_eq!(strip_numeric_suffix("foo-"), None);
    assert_eq!(strip_numeric_suffix("foo-1bar"), None);
}

#[test]
fn test_discover_prefix_numbered_threads() {
    let threads = vec![
        (1, "main".to_string()),
        (2, "my-pool-0".to_string()),
        (3, "my-pool-1".to_string()),
        (4, "my-pool-2".to_string()),
        (5, "signal-handler".to_string()),
    ];
    assert_eq!(discover_worker_prefix(&threads), Some("my-pool".to_string()));
}

#[test]
fn test_discover_prefix_truncated_comm() {
    let threads = vec![
        (1, "main".to_string()),
        (2, "tokio-runtime-w".to_string()),
        (3, "tokio-runtime-w".to_string()),
        (4, "tokio-runtime-w".to_string()),
        (5, "tokio-runtime-b".to_string()),
    ];
    assert_eq!(discover_worker_prefix(&threads), Some("tokio-runtime-w".to_string()));
}

#[test]
fn test_discover_prefix_picks_largest_group() {
    let threads = vec![
        (1, "small-0".to_string()),
        (2, "small-1".to_string()),
        (3, "big-0".to_string()),
        (4, "big-1".to_string()),
        (5, "big-2".to_string()),
        (6, "big-3".to_string()),
    ];
    assert_eq!(discover_worker_prefix(&threads), Some("big".to_string()));
}

#[test]
fn test_discover_prefix_no_group() {
    let threads = vec![
        (1, "main".to_string()),
        (2, "signal-handler".to_string()),
        (3, "logger".to_string()),
    ];
    assert_eq!(discover_worker_prefix(&threads), None);
}

#[test]
fn test_thread_class_equality() {
    assert_eq!(ThreadClass::Worker, ThreadClass::Worker);
    assert_ne!(ThreadClass::Worker, ThreadClass::BlockingPool);
    assert_ne!(ThreadClass::Worker, ThreadClass::Unknown);
}

#[test]
fn workers_are_numbered_in_listing_order() {
    let ts = threads(&[(10, "main"), (11, "tokio-runtime-w"), (12, "io"), (13, "tokio-runtime-w")]);
    let w = collect_workers(&ts, "tokio-runtime-w");
    assert_eq!(w.len(), 2);
    assert_eq!((w[0].tid.0, w[0].worker_id), (11, 0));
    assert_eq!((w[1].tid.0, w[1].worker_id), (13, 1));
}

#[test]
fn identify_with_default_prefix() {
    let ts = threads(&[(1, "main"), (2, "tokio-runtime-w"), (3, "tokio-runtime-w")]);
    let r = identify_tokio_workers(&ts, None);
    assert_eq!(r.workers.len(), 2);
    assert!(r.report.is_empty());
}

#[test]
fn identify_falls_back_to_largest_group() {
    let ts = threads(&[(1, "main"), (2, "pool-0"), (3, "pool-1"), (4, "pool-2")]);
    let r = identify_tokio_workers(&ts, None);
    assert_eq!(r.workers.len(), 3);
    assert_eq!(r.workers[2].comm, "pool-2");
    assert!(r.report.is_empty());
}

#[test]
fn identify_reports_failure_with_hint() {
    let ts = threads(&[(1, "main"), (2, "pool-0"), (3, "pool-1")]);
    let r = identify_tokio_workers(&ts, Some("tokio-runtime-w"));
    assert!(r.workers.is_empty());
    assert_eq!(
        r.report,
        vec![
            "No workers found matching prefix \"tokio-runtime-w\". Found 3 threads: [main, pool-0, pool-1]"
                .to_string(),
            "Hint: try --workers pool".to_string(),
        ]
    );
}

#[test]
fn failure_report_truncates_names() {
    let names: Vec<(u32, String)> = (0..12u32).map(|i| (i, format!("t{:02}", i))).collect();
    let lines = log_discovery_failure(&names, "w", None);
    assert_eq!(
        lines[0],
        "No workers found matching prefix \"w\". Found 12 threads: [t00, t01, t02, t03, t04, t05, t06, t07, t08, t09, ... (2 more)]"
    );
    assert_eq!(
        lines[1],
        "If your Tokio runtime uses custom thread names, pass --workers <prefix>."
    );
}

#[test]
fn distinct_names_are_sorted() {
    let ts = threads(&[(1, "b"), (2, "a"), (3, "b"), (4, "ab")]);
    let names = sorted_distinct_names(&ts);
    let as_strings: Vec<String> = names.iter().map(|v| v.iter().collect()).collect();
    assert_eq!(as_strings, vec!["a", "ab", "b"]);
}

#[test]
fn stack_classes() {
    let worker = vec![
        "std::thread::run".to_string(),
        "tokio::runtime::scheduler::multi_thread::worker::run".to_string(),
    ];
    assert_eq!(classify_frame_names(&worker), ThreadClass::Worker);
    let blocking = vec!["tokio::runtime::blocking::pool::Inner::run".to_string()];
    assert_eq!(classify_frame_names(&blocking), ThreadClass::BlockingPool);
    assert_eq!(classify_frame_names(&vec!["main".to_string()]), ThreadClass::Unknown);
}

#[test]
fn classes_only_go_up() {
    assert_eq!(upgrade_class(ThreadClass::Unknown, ThreadClass::BlockingPool), ThreadClass::BlockingPool);
    assert_eq!(upgrade_class(ThreadClass::BlockingPool, ThreadClass::Unknown), ThreadClass::BlockingPool);
    assert_eq!(upgrade_class(ThreadClass::Worker, ThreadClass::BlockingPool), ThreadClass::Worker);
    assert_eq!(upgrade_class(ThreadClass::BlockingPool, ThreadClass::Worker), ThreadClass::Worker);
}

#[test]
fn sampled_workers_sorted_by_tid() {
    let classes = vec![
        (30, ThreadClass::Worker),
        (10, ThreadClass::Worker),
        (20, ThreadClass::BlockingPool),
        (40, ThreadClass::Worker),
    ];
    let ts = threads(&[(10, "w-a"), (20, "b"), (30, "w-b")]);
    let w = workers_from_classes(&classes, &ts);
    assert_eq!(w.len(), 2);
    assert_eq!((w[0].tid.0, w[0].worker_id, w[0].comm.as_str()), (10, 0, "w-a"));
    assert_eq!((w[1].tid.0, w[1].worker_id, w[1].comm.as_str()), (30, 1, "w-b"));
}

#[test]
fn discovery_steps() {
    let ts = threads(&[(1, "main"), (2, "pool-0"), (3, "pool-1")]);
    // An explicit prefix is the answer, even when it names nothing.
    assert_eq!(start_discovery(&ts, Some("pool")).map(|w| w.len()), Some(2));
    assert_eq!(start_discovery(&ts, Some("tokio")).map(|w| w.len()), Some(0));
    // Without one, stacks are sampled when the default name is absent.
    assert!(start_discovery(&ts, None).is_none());
    let named = threads(&[(1, "main"), (2, "tokio-runtime-w")]);
    assert_eq!(start_discovery(&named, None).map(|w| w.len()), Some(1));
    // Stack-sampled workers win; else the largest group; else nothing.
    let sampled = vec![WorkerInfo { tid: Tid(1), worker_id: 0, comm: "main".to_string() }];
    assert_eq!(finish_discovery(&ts, sampled)[0].tid.0, 1);
    let grouped = finish_discovery(&ts, vec![]);
    assert_eq!(grouped.iter().map(|w| w.tid.0).collect::<Vec<_>>(), vec![2, 3]);
    assert!(finish_discovery(&threads(&[(1, "a"), (2, "b")]), vec![]).is_empty());
}

#[test]
fn stack_sampling_classifies_threads() {
    let range = Some(MemoryRange { start: 0x1000, end: 0x2000 });
    let names = |off: u64| -> Option<String> {
        match off {
            0x10 => Some("tokio::runtime::scheduler::multi_thread::worker::run".to_string()),
            0x20 => Some("tokio::runtime::blocking::pool::Inner::run".to_string()),
            _ => None,
        }
    };
    assert_eq!(classify_thread_stack(-1, || None, range, &names), ThreadClass::Unknown);
    assert_eq!(classify_thread_stack(3, || None, range, &names), ThreadClass::Unknown);
    assert_eq!(classify_thread_stack(3, || Some(vec![0x1020, 0x1010, 0]), range, &names), ThreadClass::Worker);
    assert_eq!(classify_thread_stack(3, || Some(vec![0x1020, 0, 0x1010]), range, &names), ThreadClass::BlockingPool);
    // Addresses outside the executable are not looked up.
    assert_eq!(classify_thread_stack(3, || Some(vec![0x9010]), range, &names), ThreadClass::Unknown);

    let mut sampler = StackSampler::new();
    let mut calls = 0;
    assert_eq!(sampler.stack_class_with(7, || { calls += 1; ThreadClass::BlockingPool }), ThreadClass::BlockingPool);
    assert_eq!(sampler.stack_class_with(7, || { calls += 1; ThreadClass::Worker }), ThreadClass::BlockingPool);
    assert_eq!(calls, 1);
    sampler.record_thread(10, ThreadClass::BlockingPool);
    sampler.record_thread(10, ThreadClass::Unknown);
    sampler.record_thread(11, ThreadClass::Unknown);
    sampler.record_thread(11, ThreadClass::Worker);
    sampler.record_thread(11, ThreadClass::BlockingPool);
    let classes = sampler.thread_classes().clone();
    assert_eq!(classes, vec![(10, ThreadClass::BlockingPool), (11, ThreadClass::Worker)]);
    let ts = threads(&[(10, "blocking-0"), (11, "worker-a")]);
    let w = workers_from_classes(&classes, &ts);
    assert_eq!(w.len(), 1);
    assert_eq!(w[0].comm, "worker-a");
}

#[test]
fn equal_groups_pick_the_first_seen() {
    let ts = threads(&[(1, "b-0"), (2, "a-0"), (3, "a-1"), (4, "b-1")]);
    assert_eq!(discover_worker_prefix(&ts), Some("b".to_string()));
}

#[test]
fn upgrades_do_not_depend_on_order() {
    let classes = [ThreadClass::Unknown, ThreadClass::BlockingPool, ThreadClass::Worker];
    for e in classes {
        for a in classes {
            for b in classes {
                assert_eq!(upgrade_class(upgrade_class(e, a), b), upgrade_class(upgrade_class(e, b), a));
                assert_eq!(upgrade_class(upgrade_class(e, a), a), upgrade_class(e, a));
            }
        }
    }
}
