use hud::analysis::hotspot_analyzer::FunctionHotspot;
use hud::trace_data::{TraceData, TraceEvent};
use hud::tui::hotspot::{
    filter_by_name, format_duration_human, group_by_file, truncate_for_display,
    visible_item_count, visible_scroll_offset, HotspotView, ViewMode,
};
use hud::tui::drilldown::{call_trace, drilldown_height, top_workers};
use hud::tui::layout::{compute_layout, TerminalSize};
use hud::tui::live::{AppMode, Key, LiveApp};
use hud::tui::workers::{busiest_worker, status_summary, worker_stats, WorkerStats, WorkersPanel};

/// A hotspot with `share` samples.
fn make_hotspot(name: &str, file: Option<&str>, share: usize) -> FunctionHotspot {
    FunctionHotspot {
        name: name.to_string(),
        count: share,
        file: file.map(String::from),
        line: Some(10),
        workers: vec![],
        call_stacks: vec![],
    }
}

fn event(name: &str, worker_id: u32, tid: u32, ts_ns: u64) -> TraceEvent {
    TraceEvent {
        name: name.to_string(),
        worker_id,
        tid,
        timestamp_ns: ts_ns,
        cpu: 0,
        detection_method: Some(4),
        file: None,
        line: None,
        stack_id: -1,
        call_stack: None,
    }
}

#[test]
fn test_normal_layout() {
    let config = compute_layout(120, 40);
    assert_eq!(config.size, TerminalSize::Normal);
    assert!(config.show_status_panel);
    assert!(config.show_workers_panel);
    assert!(config.show_status_bar);
    assert!(!config.single_column);
    assert_eq!(config.left_col_pct, 30);
}

#[test]
fn test_narrow_layout() {
    let config = compute_layout(80, 40);
    assert_eq!(config.left_col_pct, 25);
    assert_eq!(config.right_col_pct, 75);
    assert!(!config.single_column);
}

#[test]
fn test_single_column_layout() {
    let config = compute_layout(50, 40);
    assert!(config.single_column);
    assert!(!config.show_status_panel);
    assert!(!config.show_workers_panel);
}

#[test]
fn test_minimal_height() {
    let config = compute_layout(120, 12);
    assert_eq!(config.size, TerminalSize::Minimal);
    assert!(!config.show_status_bar);
    assert!(!config.show_workers_panel);
}

#[test]
fn test_compact_height() {
    let config = compute_layout(120, 20);
    assert_eq!(config.size, TerminalSize::Compact);
    assert!(!config.show_workers_panel);
    assert!(config.show_status_bar);
}

#[test]
fn test_group_by_file() {
    let hotspots = vec![
        make_hotspot("foo", Some("src/main.rs"), 30),
        make_hotspot("bar", Some("src/main.rs"), 20),
        make_hotspot("baz", Some("src/lib.rs"), 15),
        make_hotspot("qux", None, 10),
    ];

    let groups = group_by_file(&hotspots);

    assert_eq!(groups.len(), 3);
    assert_eq!(groups[0].file, "src/main.rs");
    assert_eq!(groups[0].samples, 50);
    assert_eq!(groups[0].count, 2);

    assert_eq!(groups[1].file, "src/lib.rs");
    assert_eq!(groups[1].samples, 15);
    assert_eq!(groups[1].count, 1);

    assert_eq!(groups[2].file, "<unknown>");
    assert_eq!(groups[2].samples, 10);
    assert_eq!(groups[2].count, 1);
}

#[test]
fn test_view_mode_toggle() {
    let hotspots = vec![make_hotspot("foo", Some("src/main.rs"), 50)];
    let mut view = HotspotView::from_hotspots(hotspots);

    assert_eq!(view.view_mode(), ViewMode::Functions);

    view.toggle_view();
    assert_eq!(view.view_mode(), ViewMode::Files);

    view.toggle_view();
    assert_eq!(view.view_mode(), ViewMode::Functions);
}

#[test]
fn test_scroll_respects_view_mode() {
    let hotspots = vec![
        make_hotspot("foo", Some("src/a.rs"), 40),
        make_hotspot("bar", Some("src/b.rs"), 30),
        make_hotspot("baz", Some("src/c.rs"), 20),
    ];
    let mut view = HotspotView::from_hotspots(hotspots);

    assert_eq!(view.selected_index, 0);
    view.scroll_down();
    view.scroll_down();
    assert_eq!(view.selected_index, 2);
    view.scroll_down();
    assert_eq!(view.selected_index, 2);

    view.toggle_view();
    assert_eq!(view.selected_index, 0);
    view.scroll_down();
    view.scroll_down();
    assert_eq!(view.selected_index, 2);
}

#[test]
fn layout_widths() {
    let wide = compute_layout(200, 50);
    assert_eq!((wide.left_col_pct, wide.right_col_pct), (30, 70));
    let edge = compute_layout(60, 40);
    assert!(!edge.single_column);
    assert!(compute_layout(59, 40).single_column);
    assert_eq!(compute_layout(59, 40).size, TerminalSize::Normal);
}

#[test]
fn human_durations() {
    assert_eq!(format_duration_human(0), "0s");
    assert_eq!(format_duration_human(45), "45s");
    assert_eq!(format_duration_human(3599), "59m 59s");
    assert_eq!(format_duration_human(3600), "1h");
    assert_eq!(format_duration_human(3661), "1h 1m");
    assert_eq!(format_duration_human(2 * 86400 + 4 * 3600 + 23 * 60 + 9), "2d 4h 23m");
}

#[test]
fn truncation_counts_characters() {
    assert_eq!(truncate_for_display("short", 10), "short");
    assert_eq!(truncate_for_display("a_long_function_name", 10), "a_long_...");
    assert_eq!(truncate_for_display("abcdef", 2), "...");
    assert_eq!(truncate_for_display("ééééé", 4), "é...");
}

#[test]
fn scrolling_windows() {
    assert_eq!(visible_item_count(22, 100), 10);
    assert_eq!(visible_item_count(22, 4), 4);
    assert_eq!(visible_item_count(1, 100), 1);
    assert_eq!(visible_scroll_offset(3, 0, 10), 0);
    assert_eq!(visible_scroll_offset(12, 0, 10), 3);
    assert_eq!(visible_scroll_offset(12, 5, 10), 5);
}

#[test]
fn filtering_by_name_ignores_case() {
    let hs = vec![
        make_hotspot("test_function_a", None, 2),
        make_hotspot("Other", None, 1),
        make_hotspot("TEST_FUNCTION_B", None, 1),
    ];
    let f = filter_by_name(&hs, "FUNCTION");
    assert_eq!(f.len(), 2);
    assert_eq!(f[0].name, "test_function_a");
    assert_eq!(f[1].name, "TEST_FUNCTION_B");
    assert_eq!(filter_by_name(&hs, "").len(), 3);
    assert!(filter_by_name(&hs, "nonexistent_function_xyz").is_empty());
}

#[test]
fn clearing_a_filter_restores_the_list() {
    let hs = vec![
        make_hotspot("function_a", Some("src/a.rs"), 3),
        make_hotspot("helper", Some("src/b.rs"), 2),
    ];
    let mut view = HotspotView::from_hotspots(hs);
    view.apply_filter("function_a");
    assert!(view.is_filtered());
    assert_eq!(view.hotspots.len(), 1);
    assert_eq!(view.get_selected().unwrap().name, "function_a");
    view.clear_filter();
    assert!(!view.is_filtered());
    assert_eq!(view.hotspots.len(), 2);
    view.apply_filter("");
    assert!(!view.is_filtered());
}

#[test]
fn file_view_selection() {
    let hs = vec![
        make_hotspot("f", Some("src/a.rs"), 3),
        make_hotspot("g", Some("src/b.rs"), 5),
    ];
    let mut view = HotspotView::from_hotspots(hs);
    view.set_view_mode(ViewMode::Files);
    assert_eq!(view.get_selected_file_group().unwrap().file, "src/b.rs");
    view.scroll_down();
    assert_eq!(view.get_selected_file_group().unwrap().file, "src/a.rs");
    view.scroll_up();
    view.scroll_up();
    assert_eq!(view.selected_line(), 0);
}

fn snapshot(events: Vec<TraceEvent>) -> TraceData {
    TraceData { events, workers: vec![0, 1], duration_ns: 10 }
}

#[test]
fn worker_loads_and_busiest_worker() {
    let data = snapshot(vec![
        event("f", 0, 100, 1),
        event("execution", 0, 100, 2),
        event("g", 1, 101, 3),
        event("h", 1, 101, 4),
    ]);
    let stats = worker_stats(&data.events);
    assert_eq!(stats.len(), 2);
    let panel = WorkersPanel::new(&data);
    assert_eq!(
        panel.stats_for(0),
        Some(WorkerStats { worker_id: 0, tid: 100, total_samples: 2, samples_with_functions: 1 })
    );
    assert_eq!(panel.stats_for(7), None);
    let busiest = busiest_worker(&stats).unwrap();
    assert_eq!(busiest.worker_id, 1);

    let summary = status_summary(&data, true);
    assert_eq!(summary.total_events, 4);
    assert_eq!(summary.worker_count, 2);
    assert!(summary.low_debug_coverage);
    assert_eq!(summary.busiest_worker.map(|w| w.worker_id), Some(1));
}

#[test]
fn live_app_keys() {
    let mut app = LiveApp::new();
    app.ingest(event("function_a", 0, 100, 1));
    app.ingest(event("function_a", 1, 101, 2));
    app.ingest(event("function_b", 0, 100, 3));
    assert_eq!(app.live_data.event_count(), 3);
    app.update_hotspot_view();
    let view = app.hotspot_view.as_ref().unwrap();
    assert_eq!(view.hotspots[0].name, "function_a");

    app.handle_key(Key::Char('/'));
    assert_eq!(app.view_mode, AppMode::Search);
    app.handle_key(Key::Char('b'));
    app.handle_key(Key::Char('x'));
    app.handle_key(Key::Backspace);
    assert_eq!(app.search_query, "b");
    app.handle_key(Key::Enter);
    assert_eq!(app.view_mode, AppMode::Analysis);
    let view = app.hotspot_view.as_ref().unwrap();
    assert!(view.is_filtered());
    assert_eq!(view.hotspots.len(), 1);
    assert_eq!(view.hotspots[0].name, "function_b");

    app.handle_key(Key::Enter);
    assert_eq!(app.view_mode, AppMode::DrillDown);
    assert_eq!(app.frozen_hotspot.as_ref().unwrap().name, "function_b");
    app.handle_key(Key::Esc);
    assert_eq!(app.view_mode, AppMode::Analysis);

    app.handle_key(Key::Char('c'));
    assert!(!app.hotspot_view.as_ref().unwrap().is_filtered());
    app.handle_key(Key::Char('?'));
    assert_eq!(app.view_mode, AppMode::Help);
    app.handle_key(Key::Other);
    assert_eq!(app.view_mode, AppMode::Analysis);
    app.handle_key(Key::Char('q'));
    assert!(app.should_quit);
}

#[test]
fn busiest_worker_ties_go_to_the_first() {
    let stats = vec![
        WorkerStats { worker_id: 4, tid: 1, total_samples: 0, samples_with_functions: 0 },
        WorkerStats { worker_id: 2, tid: 2, total_samples: 4, samples_with_functions: 2 },
        WorkerStats { worker_id: 3, tid: 3, total_samples: 2, samples_with_functions: 1 },
    ];
    assert_eq!(busiest_worker(&stats).map(|w| w.worker_id), Some(2));
    assert_eq!(busiest_worker(&vec![stats[0]]), None);
}

#[test]
fn typing_q_in_search_does_not_quit() {
    let mut app = LiveApp::new();
    app.ingest(event("function_a", 0, 100, 1));
    app.update_hotspot_view();
    app.handle_key(Key::Char('/'));
    app.handle_key(Key::Char('q'));
    app.handle_key(Key::Char('Q'));
    assert!(!app.should_quit);
    assert_eq!(app.view_mode, AppMode::Search);
    assert_eq!(app.search_query, "qQ");
    app.handle_key(Key::Esc);
    assert_eq!(app.search_query, "");
    assert!(!app.should_quit);
    // An empty query clears the filter.
    app.handle_key(Key::Char('/'));
    app.handle_key(Key::Enter);
    assert!(!app.hotspot_view.as_ref().unwrap().is_filtered());
    assert_eq!(app.hotspot_view.as_ref().unwrap().hotspots.len(), 1);
}

#[test]
fn busiest_worker_takes_any_counts() {
    let stats = vec![
        WorkerStats { worker_id: 0, tid: 1, total_samples: 2, samples_with_functions: 5 },
        WorkerStats { worker_id: 1, tid: 2, total_samples: 4, samples_with_functions: 1 },
    ];
    assert_eq!(busiest_worker(&stats).map(|w| w.worker_id), Some(0));
}

fn stack_frame(function: &str, file: Option<&str>, line: Option<u32>, user: bool) -> hud::trace_data::StackFrame {
    hud::trace_data::StackFrame {
        function: function.to_string(),
        file: file.map(String::from),
        line,
        origin: if user { hud::classification::FrameOrigin::UserCode } else { hud::classification::FrameOrigin::StdLib },
        is_user_code: user,
    }
}

#[test]
fn call_trace_lists_outermost_frames_first() {
    let mut stack = vec![stack_frame("leaf", Some("/src/app/handler.rs"), Some(42), true)];
    for i in 0..9 {
        stack.push(stack_frame(&format!("f{i}"), None, None, false));
    }
    stack.push(stack_frame("main", Some("src/main.rs"), None, true));
    let (rows, hidden) = call_trace(&stack);
    assert_eq!(rows.len(), 8);
    assert_eq!(hidden, 3);
    assert_eq!(rows[0].function, "main");
    assert_eq!(rows[0].location, "main.rs");
    assert!(rows[0].is_user_code && !rows[0].last);
    assert_eq!(rows[1].function, "f8");
    assert_eq!(rows[1].location, "");
    assert!(rows[7].last);

    let short = vec![stack_frame("leaf", Some("/src/app/handler.rs"), Some(42), true)];
    let (rows, hidden) = call_trace(&short);
    assert_eq!((rows.len(), hidden), (1, 0));
    assert_eq!(rows[0].location, "handler.rs:42");
    assert!(rows[0].last);
}

#[test]
fn top_workers_keeps_the_four_busiest() {
    let w = vec![(0, 1), (1, 7), (2, 3), (3, 9), (4, 5)];
    assert_eq!(top_workers(&w), vec![(3, 9), (1, 7), (4, 5), (2, 3)]);
    assert_eq!(top_workers(&vec![(5, 2)]), vec![(5, 2)]);
}

#[test]
fn drilldown_height_counts_its_sections() {
    let mut h = make_hotspot("foo", None, 3);
    assert_eq!(drilldown_height(&h), 17);
    h.workers = vec![(0, 1), (1, 1), (2, 1), (3, 1), (4, 1)];
    h.call_stacks = vec![std::sync::Arc::new(vec![stack_frame("a", None, None, true); 9])];
    assert_eq!(drilldown_height(&h), 16 + 7 + 5);
}

#[test]
fn filter_by_workers_recounts_their_samples() {
    let data = TraceData {
        events: vec![
            event("function_a", 0, 100, 1),
            event("function_a", 1, 101, 2),
            event("function_b", 1, 101, 3),
            event("function_b", 1, 101, 4),
            event("function_c", 2, 102, 5),
        ],
        workers: vec![0, 1, 2],
        duration_ns: 4,
    };
    let mut view = HotspotView::new(&data);
    assert_eq!(view.hotspots.len(), 3);
    view.filter_by_workers(&[1], &data);
    assert!(view.is_filtered());
    assert_eq!(view.hotspots.len(), 2);
    assert_eq!((view.hotspots[0].name.as_str(), view.hotspots[0].count), ("function_b", 2));
    assert_eq!((view.hotspots[1].name.as_str(), view.hotspots[1].count), ("function_a", 1));
    view.filter_by_workers(&[0, 2], &data);
    assert_eq!(view.hotspots.len(), 2);
    view.filter_by_workers(&[0, 1, 2], &data);
    assert!(!view.is_filtered());
    assert_eq!(view.hotspots.len(), 3);
}
