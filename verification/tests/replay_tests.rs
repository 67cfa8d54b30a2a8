//! The saved-trace reader and the hotspot view over a small saved session:
//! two samples of `test_function_a` on worker 1, one of `test_function_b` on
//! worker 2 and one scheduler-time (`execution`) event on worker 3, one
//! second apart.

use hud::trace_data::{trace_from_records, TraceData, TraceRecord};
use hud::tui::hotspot::HotspotView;

fn begin(name: &str, worker_id: u64, tid: u64, ts_us: u64, file: Option<&str>, line: Option<u64>, method: u64) -> TraceRecord {
    TraceRecord {
        phase: Some("B".to_string()),
        name: Some(name.to_string()),
        worker_id: Some(worker_id),
        tid: Some(tid),
        timestamp_ns: ts_us * 1_000,
        cpu_id: Some(0),
        detection_method: Some(method),
        file: file.map(String::from),
        line,
    }
}

fn simple_trace() -> TraceData {
    let records = vec![
        begin("test_function_a", 1, 12346, 1_000_000, Some("test.rs"), Some(42), 4),
        begin("test_function_a", 1, 12346, 2_000_000, Some("test.rs"), Some(42), 4),
        begin("test_function_b", 2, 12347, 3_000_000, Some("test.rs"), Some(50), 4),
        begin("execution", 3, 12348, 4_000_000, None, None, 2),
    ];
    trace_from_records(&records)
}

#[test]
fn test_parse_trace_from_file_succeeds() {
    let data = simple_trace();
    assert_eq!(data.events.len(), 4, "Should have 4 events");
    assert_eq!(data.workers.len(), 3, "Should have 3 unique workers");
}

#[test]
fn test_parse_trace_extracts_all_fields() {
    let data = simple_trace();
    let event = &data.events[0];
    assert_eq!(event.name, "test_function_a");
    assert_eq!(event.worker_id, 1);
    assert_eq!(event.tid, 12346);
    assert_eq!(event.timestamp_ns, 1_000_000_000);
    assert_eq!(event.cpu, 0);
    assert_eq!(event.detection_method, Some(4));
    assert_eq!(event.file, Some("test.rs".to_string()));
    assert_eq!(event.line, Some(42));
}

#[test]
fn test_parse_trace_handles_missing_optional_fields() {
    let data = simple_trace();
    let scheduler_event = &data.events[3];
    assert_eq!(scheduler_event.name, "execution");
    assert_eq!(scheduler_event.file, None);
    assert_eq!(scheduler_event.line, None);
}

#[test]
fn test_parse_trace_calculates_duration() {
    let data = simple_trace();
    assert_eq!(data.duration_ns, 4_000_000_000);
}

#[test]
fn test_parse_trace_aggregates_unique_workers() {
    let data = simple_trace();
    assert_eq!(data.workers.len(), 3);
    assert!(data.workers.contains(&1));
    assert!(data.workers.contains(&2));
    assert!(data.workers.contains(&3));
    assert_eq!(data.workers, vec![1, 2, 3]);
}

#[test]
fn test_parse_trace_filters_non_begin_events() {
    let mut end = begin("test_function_a", 1, 12346, 1_500_000, None, None, 4);
    end.phase = Some("E".to_string());
    let records = vec![begin("test_function_a", 1, 12346, 1_000_000, None, None, 4), end];
    let data = trace_from_records(&records);
    assert_eq!(data.events.len(), 1);
    for event in &simple_trace().events {
        assert!(!event.name.is_empty());
    }
}

#[test]
fn test_parse_empty_trace_events() {
    let data = trace_from_records(&vec![]);
    assert_eq!(data.events.len(), 0);
    assert_eq!(data.workers.len(), 0);
    assert_eq!(data.duration_ns, 0);
}

#[test]
fn test_timestamp_conversion_microseconds_to_seconds() {
    let data = simple_trace();
    assert_eq!(data.events[0].timestamp_ns, 1_000_000_000);
    assert_eq!(data.events[1].timestamp_ns, 2_000_000_000);
    assert_eq!(data.events[2].timestamp_ns, 3_000_000_000);
}

#[test]
fn test_roundtrip_parse_export_parse() {
    let original_data = simple_trace();
    assert_eq!(original_data.events.len(), 4);
    assert_eq!(original_data.workers.len(), 3);
}

#[test]
fn test_trace_data_preserves_event_order() {
    let data = simple_trace();
    assert_eq!(data.events[0].name, "test_function_a");
    assert_eq!(data.events[1].name, "test_function_a");
    assert_eq!(data.events[2].name, "test_function_b");
    assert_eq!(data.events[3].name, "execution");
}

#[test]
fn test_trace_data_timestamp_ordering() {
    let data = simple_trace();
    for i in 1..data.events.len() {
        assert!(data.events[i].timestamp_ns >= data.events[i - 1].timestamp_ns, "Timestamps should be non-decreasing");
    }
}

#[test]
fn test_hotspot_calculates_correct_counts() {
    let data = simple_trace();
    let view = HotspotView::new(&data);
    let func_a = view.hotspots.iter().find(|h| h.name == "test_function_a").expect("Should find test_function_a");
    assert_eq!(func_a.count, 2, "test_function_a should have 2 samples");
}

#[test]
fn test_hotspot_sorts_by_count_descending() {
    let data = simple_trace();
    let view = HotspotView::new(&data);
    for i in 1..view.hotspots.len() {
        assert!(view.hotspots[i - 1].count >= view.hotspots[i].count, "Hotspots should be sorted by count descending");
    }
}

#[test]
fn test_hotspot_filter_by_name_case_insensitive() {
    let data = simple_trace();
    let mut view = HotspotView::new(&data);
    view.apply_filter("FUNCTION");
    assert_eq!(view.hotspots.len(), 2, "Should match 2 functions");
    assert!(view.hotspots.iter().all(|h| h.name.to_lowercase().contains("function")));
    assert!(view.is_filtered());
}

#[test]
fn test_hotspot_filter_by_name_substring() {
    let data = simple_trace();
    let mut view = HotspotView::new(&data);
    view.apply_filter("_a");
    assert_eq!(view.hotspots.len(), 1);
    assert_eq!(view.hotspots[0].name, "test_function_a");
}

#[test]
fn test_hotspot_filter_empty_query_shows_all() {
    let data = simple_trace();
    let mut view = HotspotView::new(&data);
    let original_count = view.hotspots.len();
    view.apply_filter("");
    assert_eq!(view.hotspots.len(), original_count);
    assert!(!view.is_filtered(), "Empty filter should not be active");
}

#[test]
fn test_hotspot_filter_no_matches_returns_empty() {
    let data = simple_trace();
    let mut view = HotspotView::new(&data);
    view.apply_filter("nonexistent_function_xyz");
    assert_eq!(view.hotspots.len(), 0);
    assert!(view.is_filtered());
}

#[test]
fn test_hotspot_clear_filter_restores_original() {
    let data = simple_trace();
    let mut view = HotspotView::new(&data);
    let original_count = view.hotspots.len();
    view.apply_filter("function_a");
    assert!(view.hotspots.len() < original_count);
    view.clear_filter();
    assert_eq!(view.hotspots.len(), original_count);
    assert!(!view.is_filtered());
}

#[test]
fn test_hotspot_filter_by_workers_single_worker() {
    let data = simple_trace();
    let mut view = HotspotView::new(&data);
    view.filter_by_workers(&[1], &data);
    assert!(view.is_filtered());
    assert_eq!(view.hotspots.len(), 1);
    assert_eq!(view.hotspots[0].name, "test_function_a");
    assert_eq!(view.hotspots[0].count, 2);
}

#[test]
fn test_hotspot_filter_by_workers_multiple_workers() {
    let data = simple_trace();
    let mut view = HotspotView::new(&data);
    view.filter_by_workers(&[1, 2], &data);
    assert!(view.is_filtered());
    assert_eq!(view.hotspots.len(), 2);
}

#[test]
fn test_hotspot_filter_by_workers_recalculates_percentages() {
    let data = simple_trace();
    let mut view = HotspotView::new(&data);
    view.filter_by_workers(&[1], &data);
    let total: usize = view.hotspots.iter().map(|h| h.count).sum();
    let func_a = &view.hotspots[0];
    let percentage = func_a.count as f64 / total as f64 * 100.0;
    assert!((percentage - 100.0).abs() < 0.1, "Expected 100%, got {}", percentage);
}

#[test]
fn test_hotspot_filter_by_all_workers_clears_filter() {
    let data = simple_trace();
    let mut view = HotspotView::new(&data);
    let original_count = view.hotspots.len();
    view.filter_by_workers(&data.workers, &data);
    assert_eq!(view.hotspots.len(), original_count);
    assert!(!view.is_filtered());
    // Naming every worker, in another order and with a repeat, is the same.
    view.filter_by_workers(&[3, 1, 2, 1], &data);
    assert!(!view.is_filtered());
    view.filter_by_workers(&[1, 1, 1], &data);
    assert!(view.is_filtered());
}

#[test]
fn test_hotspot_scroll_down_increments_selection() {
    let data = simple_trace();
    let mut view = HotspotView::new(&data);
    assert_eq!(view.selected_index, 0);
    view.scroll_down();
    assert_eq!(view.selected_index, 1);
}

#[test]
fn test_hotspot_scroll_up_stops_at_zero() {
    let data = simple_trace();
    let mut view = HotspotView::new(&data);
    assert_eq!(view.selected_index, 0);
    view.scroll_up();
    assert_eq!(view.selected_index, 0, "Should not go below 0");
}

#[test]
fn test_hotspot_scroll_down_stops_at_end() {
    let data = simple_trace();
    let mut view = HotspotView::new(&data);
    let max_index = view.hotspots.len() - 1;
    for _ in 0..100 {
        view.scroll_down();
    }
    assert_eq!(view.selected_index, max_index, "Should not go past last item");
}

#[test]
fn test_hotspot_get_selected_returns_current_item() {
    let data = simple_trace();
    let mut view = HotspotView::new(&data);
    let first = view.get_selected().unwrap();
    let first_name = first.name.clone();
    view.scroll_down();
    let second = view.get_selected().unwrap();
    assert_ne!(first_name, second.name, "Selected item should change after scroll");
}

#[test]
fn test_hotspot_preserves_file_line_info() {
    let data = simple_trace();
    let view = HotspotView::new(&data);
    let func_a = view.hotspots.iter().find(|h| h.name == "test_function_a").expect("Should find test_function_a");
    assert_eq!(func_a.file, Some("test.rs".to_string()));
    assert_eq!(func_a.line, Some(42));
}

#[test]
fn test_hotspot_tracks_worker_distribution() {
    let data = simple_trace();
    let view = HotspotView::new(&data);
    let func_a = view.hotspots.iter().find(|h| h.name == "test_function_a").expect("Should find test_function_a");
    assert_eq!(func_a.workers.iter().find(|(w, _)| *w == 1).map(|(_, c)| *c), Some(2));
    assert_eq!(func_a.workers.len(), 1);
}
