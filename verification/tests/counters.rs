use edgepacer::counters::{
    AgentCounters, BodyVariantCounters, BodyVariantRegistry, BodyVariantSplit, ErrorWindow, Gauges,
    PipelineLiveness, QueueDepthGauge, HOUR_NANOS,
};

fn split(entry_json: u64, raw_text: u64, raw_bytes: u64) -> BodyVariantSplit {
    BodyVariantSplit { entry_json, raw_text, raw_bytes }
}

#[test]
fn error_window_counts_last_hour() {
    let mut counters = AgentCounters::new();
    counters.increment_errors(10);
    counters.increment_errors(20);
    assert_eq!(counters.errors_last_hour(30), 2);
    assert_eq!(counters.snapshot().errors_total, 2);
}

#[test]
fn counters_increment_and_snapshot() {
    let mut counters = AgentCounters::new();
    counters.add_bytes_sent(1000);
    counters.add_bytes_sent(500);
    counters.increment_errors(1);
    counters.set_streams_active(3);
    counters.increment_samples_completed();

    let snap = counters.snapshot();
    assert_eq!(snap.bytes_sent, 1500);
    assert_eq!(snap.errors_total, 1);
    assert_eq!(snap.streams_active, 3);
    assert_eq!(snap.samples_completed, 1);
    assert_eq!(snap.samples_pending, 0);
}

#[test]
fn otlp_span_counters_increment_and_snapshot() {
    let mut counters = AgentCounters::new();
    counters.add_spans_built(3);
    counters.add_spans_built(2);
    counters.increment_spans_ship_failed();

    let snap = counters.snapshot();
    assert_eq!(snap.spans_built, 5);
    assert_eq!(snap.spans_ship_failed, 1);
}

#[test]
fn span_id_origin_counters_increment_and_snapshot() {
    let mut counters = AgentCounters::new();
    counters.increment_spans_propagated();
    counters.increment_spans_minted();
    counters.increment_spans_minted();

    let snap = counters.snapshot();
    assert_eq!(snap.spans_propagated, 1);
    assert_eq!(snap.spans_minted, 2);
}

#[test]
fn spans_parented_counter_increments_and_snapshots() {
    let mut counters = AgentCounters::new();
    counters.add_spans_parented(2);
    counters.add_spans_parented(1);

    assert_eq!(counters.snapshot().spans_parented, 3);
}

#[test]
fn spans_cross_linked_counter_increments_and_snapshots() {
    let mut counters = AgentCounters::new();
    counters.add_spans_cross_linked(1);
    counters.add_spans_cross_linked(2);

    assert_eq!(counters.snapshot().spans_cross_linked, 3);
}

#[test]
fn spans_kind_from_bytes_counter_increments_and_snapshots() {
    let mut counters = AgentCounters::new();
    counters.add_spans_kind_from_bytes(4);
    counters.add_spans_kind_from_bytes(2);

    assert_eq!(counters.snapshot().spans_kind_from_bytes, 6);
}

#[test]
fn ebpf_capture_read_faults_counter_increments_and_snapshots() {
    let mut counters = AgentCounters::new();
    counters.add_ebpf_capture_read_faults(2);
    counters.add_ebpf_capture_read_faults(3);

    assert_eq!(counters.snapshot().ebpf_capture_read_faults, 5);
}

#[test]
fn queue_depth_gauge_adds_subtracts_and_saturates() {
    let mut counters = AgentCounters::new();
    let gauge = counters.queue_depth_gauge();

    gauge.add(counters.gauges(), 1000);
    gauge.sub(counters.gauges(), 400);
    assert_eq!(gauge.get(counters.gauges()), 600);
    assert_eq!(counters.snapshot().queue_depth_bytes, 600);

    // Handles share one underlying value.
    let other = counters.queue_depth_gauge();
    other.add(counters.gauges(), 100);
    assert_eq!(gauge.get(counters.gauges()), 700);

    // Underflow clamps to zero instead of wrapping.
    gauge.sub(counters.gauges(), 10_000);
    assert_eq!(gauge.get(counters.gauges()), 0);
    assert_eq!(other.get(counters.gauges()), 0);
    assert_eq!(counters.snapshot().queue_depth_bytes, 0);
}

#[test]
fn a_cloned_handle_is_a_handle_to_the_same_gauge() {
    let mut gauges = Gauges::new();
    let gauge = QueueDepthGauge::new(&mut gauges);
    let clone = gauge.clone();
    let apart = QueueDepthGauge::new(&mut gauges);

    clone.add(&mut gauges, 25);
    apart.add(&mut gauges, 3);
    assert_eq!(gauge.get(&gauges), 25);
    gauge.sub(&mut gauges, 5);
    assert_eq!(clone.get(&gauges), 20);
    assert_eq!(apart.get(&gauges), 3);

    apart.sub(&mut gauges, 4);
    assert_eq!(apart.get(&gauges), 0);
    assert_eq!(clone.get(&gauges), 20);
}

#[test]
fn a_source_has_no_counts_until_something_is_recorded() {
    let mut registry = BodyVariantRegistry::default();
    registry.counters_for("src");
    assert!(registry.snapshot_for("src").is_none());
    assert!(registry.stream_snapshot_for("src").0.is_none());

    registry.counters_for("src").record(split(0, 0, 0));
    assert_eq!(registry.snapshot_for("src"), Some(split(0, 0, 0)));
    assert_eq!(registry.stream_snapshot_for("src").0, Some(split(0, 0, 0)));
}

#[test]
fn body_variant_counters_accumulate_recorded_splits() {
    let mut counters = BodyVariantCounters::default();
    counters.record(split(2, 1, 0));
    counters.record(split(1, 0, 3));

    assert_eq!(counters.snapshot(), split(3, 1, 3));
}

#[test]
fn body_variant_registry_keeps_sources_apart() {
    let mut registry = BodyVariantRegistry::default();

    registry.counters_for("src-a").record(split(5, 0, 0));
    registry.counters_for("src-b").record(split(0, 7, 0));

    assert_eq!(registry.snapshot_for("src-a").unwrap().entry_json, 5);
    assert_eq!(registry.snapshot_for("src-a").unwrap().raw_text, 0);
    assert_eq!(registry.snapshot_for("src-b").unwrap().raw_text, 7);
    assert!(registry.snapshot_for("src-never-shipped").is_none());

    let again = registry.counters_for("src-a");
    again.record(split(1, 0, 0));
    assert_eq!(registry.snapshot_for("src-a").unwrap().entry_json, 6);

    assert!(registry.stream_snapshot_for("src-a").1.is_none());
    registry.mark_pipeline_running("src-a");
    assert_eq!(registry.stream_snapshot_for("src-a").1, Some(PipelineLiveness::Running));
    registry.mark_pipeline_failed("src-a", "buffer unavailable");
    assert_eq!(
        registry.stream_snapshot_for("src-a").1,
        Some(PipelineLiveness::Failed { reason: "buffer unavailable".to_string() })
    );

    registry.retain_sources(&vec!["src-b".to_string()]);
    assert!(registry.snapshot_for("src-a").is_none());
    assert!(registry.stream_snapshot_for("src-a").1.is_none());
    assert_eq!(registry.snapshot_for("src-b").unwrap().raw_text, 7);
}

#[test]
fn marking_a_pipeline_ships_nothing() {
    let mut counters = AgentCounters::new();
    counters.body_variants().mark_pipeline_running("src");
    assert!(counters.body_variants().snapshot_for("src").is_none());
    assert_eq!(counters.body_variants().counters_for("src").snapshot(), split(0, 0, 0));
}

#[test]
fn errors_leave_the_window_after_an_hour() {
    let mut window = ErrorWindow::default();
    window.record(0);
    window.record(5);
    assert_eq!(window.count_last_hour(HOUR_NANOS), 2);
    assert_eq!(window.count_last_hour(HOUR_NANOS + 1), 1);
    assert_eq!(window.count_last_hour(HOUR_NANOS + 6), 0);
}

#[test]
fn earlier_counts_do_not_lower_later_ones() {
    let mut often = ErrorWindow::default();
    let mut once = ErrorWindow::default();
    for at in [0, 10, HOUR_NANOS, HOUR_NANOS + 11] {
        often.record(at);
        once.record(at);
        often.count_last_hour(at);
    }
    assert_eq!(often.count_last_hour(HOUR_NANOS + 11), 2);
    assert_eq!(once.count_last_hour(HOUR_NANOS + 11), 2);
}

#[test]
fn counts_wrap() {
    let mut counters = AgentCounters::new();
    counters.add_bytes_sent(u64::MAX);
    counters.add_bytes_sent(2);
    assert_eq!(counters.snapshot().bytes_sent, 1);
}

#[test]
fn overflowed_entries_are_counted() {
    let mut counters = AgentCounters::new();
    counters.increment_entries_overflowed(4);
    assert_eq!(counters.entries_overflowed, 4);
}
