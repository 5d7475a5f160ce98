use edgepacer::config::fields::{
    optional_string_field, port_list_field, required_config_key_result,
    required_string_field_result, u32_field_or, ConfigFieldError, FieldContext, MetricSourceId,
    Port,
};
use edgepacer::config::metrics::all_metrics_streams_with_diagnostics;
use edgepacer::config::ebpf::EBPF_DEFAULT_RECEIVER_PORT;
use edgepacer::config::unified::{poll_config, replaces, FetchOutcome};
use edgepacer::config::{
    all_metrics_streams, compute_checksum, ebpf_section, effective_poll_interval,
    effective_stats_interval, stats_reporting_enabled, telemetry_config, BufferTuning,
    UnifiedConfig,
};
use edgepacer::json::Json;

fn json(text: &str) -> Json {
    Json::from_slice(text.as_bytes()).unwrap()
}

fn unified(text: &str) -> UnifiedConfig {
    UnifiedConfig::new(json(text), "etag".into())
}

// ---------------------------------------------------------------------------
// Fields
// ---------------------------------------------------------------------------

#[test]
fn required_string_field_result_reports_missing_field() {
    let error = required_string_field_result(
        &json("{}"),
        "subbox_endpoint",
        FieldContext::entry("metrics", "metric-1"),
    )
    .expect_err("missing field");

    assert_eq!(
        error,
        ConfigFieldError::InvalidField {
            section: "metrics",
            entry_id: Some("metric-1".to_string()),
            field: "subbox_endpoint",
            expected: "non-empty string",
            actual: None,
        }
    );
}

#[test]
fn required_config_key_result_reports_empty_key() {
    let error =
        required_config_key_result::<MetricSourceId>("", FieldContext::entry("metrics", ""))
            .expect_err("empty key");

    assert_eq!(
        error,
        ConfigFieldError::InvalidField {
            section: "metrics",
            entry_id: Some(String::new()),
            field: "map_key",
            expected: "non-empty string",
            actual: Some(String::new()),
        }
    );
}

#[test]
fn port_try_from_u64_reports_overflow() {
    let error = Port::try_from_u64(
        u64::from(u16::MAX) + 1,
        "receiver_port",
        FieldContext::section("ebpf"),
    )
    .expect_err("oversized port");

    assert_eq!(
        error,
        ConfigFieldError::InvalidField {
            section: "ebpf",
            entry_id: None,
            field: "receiver_port",
            expected: "u16 port",
            actual: Some("65536".to_string()),
        }
    );
}

#[test]
fn ports_come_as_text_or_array() {
    let ctx = FieldContext::section("ebpf");
    let ports = |text: &str| port_list_field(Some(&json(text)), "open_ports", ctx);
    assert_eq!(ports("\"80, 443,x,70000\""), vec![80, 443]);
    assert_eq!(ports("[80, \"443\", 70000, 22]"), vec![80, 22]);
    assert_eq!(ports("7"), Vec::<u16>::new());
    assert_eq!(port_list_field(None, "open_ports", ctx), Vec::<u16>::new());
}

#[test]
fn fields_fall_back_where_they_do_not_fit() {
    let value = json(r#"{"empty": "", "text": "x", "big": 4294967296, "n": 7}"#);
    let ctx = FieldContext::section("s");
    assert_eq!(optional_string_field(&value, "empty"), None);
    assert_eq!(optional_string_field(&value, "text").as_deref(), Some("x"));
    assert_eq!(u32_field_or(&value, "big", 3, ctx), 3);
    assert_eq!(u32_field_or(&value, "n", 3, ctx), 7);
    assert_eq!(u32_field_or(&value, "absent", 3, ctx), 3);
}

// ---------------------------------------------------------------------------
// The document
// ---------------------------------------------------------------------------

#[test]
fn resource_identifier_reads_top_level_key() {
    let cfg = unified(r#"{ "resource_identifier": "mhl.local" }"#);
    assert_eq!(cfg.resource_identifier(), Some("mhl.local"));
}

#[test]
fn resource_identifier_absent_falls_through() {
    assert_eq!(unified("{}").resource_identifier(), None);
    assert_eq!(unified(r#"{ "resource_identifier": "" }"#).resource_identifier(), None);
}

#[test]
fn checksums_tell_documents_apart() {
    let a = unified(r#"{"b": 1, "a": [true, null, "x\n"]}"#);
    let b = UnifiedConfig::new(json(r#"{ "a":[true,null,"x\n"], "b":1 }"#), "other".into());
    let c = unified(r#"{"b": 2}"#);
    assert!(!a.has_changed(&b));
    assert!(a.has_changed(&c));
    assert!(replaces(None, &a));
    assert!(!replaces(Some(&a), &b));
    assert!(replaces(Some(&a), &c));
    assert_eq!(
        compute_checksum(&json("{}")),
        "44136fa355b3678a1146ad16f7e8649e94fb4fc21fe77e8310c060f61caaff8a"
    );
}

#[test]
fn documents_are_written_as_they_were_read() {
    let text = r#"{"a":[1.5,-2,18446744073709551615,1e100,null],"b":"\u0001\"é","c":{"d":true}}"#;
    assert_eq!(String::from_utf8(json(text).to_vec()).unwrap(), text.replace("1e100", "1e+100"));
    assert!(Json::from_slice(b"{").is_none());
}

#[test]
fn polling_takes_what_is_new() {
    let mut current = None;
    let mut etag = None;
    let fetched = |tag: &str, text: &str| FetchOutcome::Fetched {
        etag: tag.to_string(),
        raw: json(text),
    };
    assert!(!poll_config(&mut current, &mut etag, FetchOutcome::Failed));
    assert!(current.is_none());
    assert!(poll_config(&mut current, &mut etag, fetched("1", r#"{"a": 1}"#)));
    assert!(!poll_config(&mut current, &mut etag, fetched("2", r#"{ "a":1 }"#)));
    assert_eq!(etag.as_deref(), Some("2"));
    assert_eq!(current.as_ref().unwrap().etag, "1");
    assert!(!poll_config(&mut current, &mut etag, FetchOutcome::NotModified));
    assert!(poll_config(&mut current, &mut etag, fetched("3", r#"{"a": 2}"#)));
    assert_eq!(current.unwrap().etag, "3");
}

// ---------------------------------------------------------------------------
// Buffers
// ---------------------------------------------------------------------------

#[test]
fn buffer_cache_mb_reads_buffer_section() {
    let unified = unified(r#"{ "buffer": { "cache_mb": 4 } }"#);

    assert_eq!(unified.buffer_cache_mb(), Some(4));
}

#[test]
fn buffer_tuning_resolves_config_overrides() {
    let unified = unified(r#"{ "buffer": { "cache_mb": 2, "ship_batch_max_mb": 3 } }"#);

    let tuning = BufferTuning::resolve(Some(&unified), None, 17);

    assert_eq!(tuning.cache_size_bytes, 2 * 1024 * 1024);
    assert_eq!(tuning.ship_batch_max_bytes, 3 * 1024 * 1024);
    assert_eq!(unified.ship_batch_max_mb(), Some(3));

    let fallback = BufferTuning::resolve(None, Some("5"), 17);
    assert_eq!(fallback.cache_size_bytes, 5 * 1024 * 1024);
    assert_eq!(fallback.ship_batch_max_bytes, 17);

    let huge = self::unified(r#"{ "buffer": { "cache_mb": 18446744073709551615 } }"#);
    assert_eq!(BufferTuning::resolve(Some(&huge), None, 17).cache_size_bytes, usize::MAX);
}

#[test]
fn buffer_cache_mb_absent_is_none() {
    let config = unified("{}");
    assert_eq!(config.buffer_cache_mb(), None);

    let bad = unified(r#"{ "buffer": { "cache_mb": "lots" } }"#);
    assert_eq!(bad.buffer_cache_mb(), None);
}

// ---------------------------------------------------------------------------
// Cadence
// ---------------------------------------------------------------------------

#[test]
fn reads_cadence_from_config_section() {
    let cfg = unified(
        r#"{"config": {"poll_secs": 45, "stats_interval_secs": 30, "send_stats": false}}"#,
    );

    assert_eq!(cfg.config_poll_secs(), Some(45));
    assert_eq!(cfg.stats_interval_secs(), Some(30));
    assert_eq!(cfg.send_stats(), Some(false));
}

#[test]
fn absent_config_values_are_none() {
    let without_config = unified("{}");
    assert_eq!(without_config.config_poll_secs(), None);
    assert_eq!(without_config.stats_interval_secs(), None);
    assert_eq!(without_config.send_stats(), None);

    let empty_config = unified(r#"{ "config": {} }"#);
    assert_eq!(empty_config.config_poll_secs(), None);
    assert_eq!(empty_config.stats_interval_secs(), None);
    assert_eq!(empty_config.send_stats(), None);
}

#[test]
fn zero_or_non_numeric_cadence_is_absent() {
    let zero = unified(r#"{"config": {"poll_secs": 0, "stats_interval_secs": 0}}"#);
    assert_eq!(zero.config_poll_secs(), None);
    assert_eq!(zero.stats_interval_secs(), None);

    let non_numeric = unified(
        r#"{"config": {"poll_secs": "60", "stats_interval_secs": "30", "send_stats": "true"}}"#,
    );
    assert_eq!(non_numeric.config_poll_secs(), None);
    assert_eq!(non_numeric.stats_interval_secs(), None);
    assert_eq!(non_numeric.send_stats(), None);
}

#[test]
fn send_stats_reads_boolean_values() {
    assert_eq!(unified(r#"{ "config": { "send_stats": true } }"#).send_stats(), Some(true));
    assert_eq!(unified(r#"{ "config": { "send_stats": false } }"#).send_stats(), Some(false));
}

#[test]
fn effective_helpers_use_config_values() {
    let cfg =
        unified(r#"{"config": {"poll_secs": 5, "stats_interval_secs": 7, "send_stats": false}}"#);

    assert_eq!(effective_poll_interval(Some(&cfg), 60), 5);
    assert_eq!(effective_stats_interval(Some(&cfg), 30), 7);
    assert!(!stats_reporting_enabled(Some(&cfg)));
}

#[test]
fn effective_helpers_fall_back_when_absent() {
    assert_eq!(effective_poll_interval(None, 60), 60);
    assert_eq!(effective_stats_interval(None, 30), 30);
    assert!(stats_reporting_enabled(None));
}

// ---------------------------------------------------------------------------
// Probes
// ---------------------------------------------------------------------------

#[test]
fn absent_section_returns_none() {
    assert!(ebpf_section(&unified("{}")).is_none());
}

#[test]
fn disabled_default_section_parses() {
    let cfg = unified(
        r#"{"ebpf": {
            "enabled": false,
            "receiver_port": 4318,
            "network_flows": { "enabled": false, "cidrs": [] },
            "targets": {}
        }}"#,
    );
    let section = ebpf_section(&cfg).expect("section present");
    assert!(!section.enabled);
    assert_eq!(section.receiver_port, 4318);
    assert!(!section.network_flows_enabled);
    assert!(section.targets.is_empty());
}

#[test]
fn enabled_section_with_targets_and_flows() {
    let cfg = unified(
        r#"{"ebpf": {
            "enabled": true,
            "receiver_port": 4318,
            "network_flows": { "enabled": true, "cidrs": ["10.0.0.0/8", "192.168.0.0/16"] },
            "targets": {
                "loggable_42": {
                    "service_name": "api-gateway",
                    "open_ports": "8080,8443",
                    "archive_id": "arc_1",
                    "repo_id": "repo_1",
                    "protocols": ["http", "grpc"],
                    "subbox_endpoint": "https://subbox.example/wire"
                }
            }
        }}"#,
    );
    let section = ebpf_section(&cfg).expect("section present");
    assert!(section.enabled);
    assert!(section.network_flows_enabled);
    assert_eq!(section.network_cidrs, vec!["10.0.0.0/8", "192.168.0.0/16"]);
    assert_eq!(section.targets.len(), 1);
    let target = &section.targets[0];
    assert_eq!(target.log_source_id, "loggable_42");
    assert_eq!(target.service_name, "api-gateway");
    assert_eq!(target.open_ports, vec![8080, 8443]);
    assert_eq!(target.protocols, vec!["http", "grpc"]);
    assert_eq!(target.subbox_endpoint, "https://subbox.example/wire");
}

#[test]
fn config_hash_changes_when_section_changes() {
    let disabled =
        ebpf_section(&unified(r#"{ "ebpf": { "enabled": false } }"#)).unwrap().config_hash;
    let enabled =
        ebpf_section(&unified(r#"{ "ebpf": { "enabled": true } }"#)).unwrap().config_hash;
    assert_ne!(disabled, enabled);
}

#[test]
fn target_without_service_name_is_skipped() {
    let cfg = unified(r#"{"ebpf": { "enabled": true, "targets": { "x": { "archive_id": "a" } } }}"#);
    assert!(ebpf_section(&cfg).unwrap().targets.is_empty());
}

#[test]
fn invalid_ports_are_rejected_without_truncation() {
    let cfg = unified(
        r#"{"ebpf": {
            "enabled": true,
            "receiver_port": 70000,
            "targets": {
                "loggable_42": {
                    "service_name": "api-gateway",
                    "open_ports": [8080, 70000],
                    "archive_id": "arc_1",
                    "repo_id": "repo_1",
                    "protocols": ["http"],
                    "subbox_endpoint": "https://subbox.example/wire"
                }
            }
        }}"#,
    );

    let section = ebpf_section(&cfg).expect("section present");

    assert_eq!(section.receiver_port, EBPF_DEFAULT_RECEIVER_PORT);
    assert_eq!(section.targets[0].open_ports, vec![8080]);
}

#[test]
fn target_without_required_routing_fields_is_skipped() {
    let cfg = unified(
        r#"{"ebpf": {
            "enabled": true,
            "targets": {
                "missing-routing": { "service_name": "api-gateway", "open_ports": "8080" }
            }
        }}"#,
    );

    assert!(ebpf_section(&cfg).unwrap().targets.is_empty());
}

#[test]
fn target_preserves_optional_exact_systemd_unit_identity() {
    let cfg = unified(
        r#"{"ebpf": {
            "enabled": true,
            "targets": {
                "loggable_42": {
                    "service_name": "nginx",
                    "systemd_unit": "nginx.service",
                    "open_ports": "80,443",
                    "archive_id": "arc_1",
                    "repo_id": "repo_1",
                    "protocols": ["http"],
                    "subbox_endpoint": "https://subbox.example/wire"
                }
            }
        }}"#,
    );

    let section = ebpf_section(&cfg).unwrap();
    assert_eq!(section.targets[0].systemd_unit.as_deref(), Some("nginx.service"));
}

#[test]
fn malformed_present_systemd_unit_cannot_downgrade_to_container_identity() {
    let cfg = unified(
        r#"{"ebpf": {
            "enabled": true,
            "targets": {
                "loggable_42": {
                    "service_name": "nginx",
                    "systemd_unit": false,
                    "open_ports": "80",
                    "archive_id": "arc_1",
                    "repo_id": "repo_1",
                    "protocols": ["http"],
                    "subbox_endpoint": "https://subbox.example/wire"
                }
            }
        }}"#,
    );

    assert!(ebpf_section(&cfg).unwrap().targets.is_empty());
}

// ---------------------------------------------------------------------------
// Metrics
// ---------------------------------------------------------------------------

#[test]
fn extracts_metrics_streams_from_unified_config() {
    let unified = unified(
        r#"{"metrics": {
            "metrics-42": {
                "subbox_endpoint": "https://subbox.example.com/wire",
                "archive_id": "arc_123",
                "repo_id": "repo_456",
                "collection_interval_secs": 1,
                "send_interval_secs": 10
            }
        }}"#,
    );

    let streams = all_metrics_streams(&unified);

    assert_eq!(streams.len(), 1);
    assert_eq!(streams[0].metric_source_id, "metrics-42");
    assert_eq!(streams[0].subbox_endpoint, "https://subbox.example.com/wire");
    assert_eq!(streams[0].archive_id, "arc_123");
    assert_eq!(streams[0].repo_id, "repo_456");
    assert_eq!(streams[0].collection_interval_secs, 1);
    assert_eq!(streams[0].send_interval_secs, 10);
}

#[test]
fn metrics_streams_defaults_intervals_when_missing() {
    let unified = unified(
        r#"{"metrics": {
            "metrics-99": {
                "subbox_endpoint": "https://subbox.example.com/wire",
                "archive_id": "arc_1",
                "repo_id": "repo_1"
            }
        }}"#,
    );

    let streams = all_metrics_streams(&unified);

    assert_eq!(streams.len(), 1);
    assert_eq!(streams[0].collection_interval_secs, 1);
    assert_eq!(streams[0].send_interval_secs, 10);
    assert_eq!(streams[0].subbox_endpoint, "https://subbox.example.com/wire");
}

#[test]
fn metrics_streams_defaults_zero_intervals() {
    let unified = unified(
        r#"{"metrics": {
            "metrics-zero": {
                "subbox_endpoint": "https://subbox.example.com/wire",
                "archive_id": "arc_1",
                "repo_id": "repo_1",
                "collection_interval_secs": 0,
                "send_interval_secs": 0
            }
        }}"#,
    );

    let streams = all_metrics_streams(&unified);

    assert_eq!(streams.len(), 1);
    assert_eq!(streams[0].collection_interval_secs, 1);
    assert_eq!(streams[0].send_interval_secs, 10);
}

#[test]
fn metrics_streams_skips_entries_missing_required_fields() {
    let unified = unified(
        r#"{"metrics": {
            "valid": {
                "subbox_endpoint": "https://subbox.example.com/wire",
                "archive_id": "arc_1",
                "repo_id": "repo_1"
            },
            "missing-endpoint": { "archive_id": "arc_2", "repo_id": "repo_2" },
            "missing-archive": {
                "subbox_endpoint": "https://subbox.example.com/wire",
                "repo_id": "repo_3"
            }
        }}"#,
    );

    let report = all_metrics_streams_with_diagnostics(&unified);
    let streams = &report.values;

    assert_eq!(streams.len(), 1);
    assert_eq!(streams[0].metric_source_id, "valid");
    assert!(report.errors.iter().any(|error| {
        matches!(
            error,
            ConfigFieldError::InvalidField {
                section: "metrics",
                entry_id: Some(entry_id),
                field: "subbox_endpoint",
                expected: "non-empty string",
                ..
            } if entry_id == "missing-endpoint"
        )
    }));
    assert!(report.errors.iter().any(|error| {
        matches!(
            error,
            ConfigFieldError::InvalidField {
                section: "metrics",
                entry_id: Some(entry_id),
                field: "archive_id",
                expected: "non-empty string",
                ..
            } if entry_id == "missing-archive"
        )
    }));
}

#[test]
fn metrics_streams_returns_empty_when_no_metrics_section() {
    assert!(all_metrics_streams(&unified("{}")).is_empty());
}

// ---------------------------------------------------------------------------
// Telemetry
// ---------------------------------------------------------------------------

#[test]
fn extracts_telemetry_config_when_enabled() {
    let unified = unified(
        r#"{"telemetry": {
            "enabled": true,
            "subbox_endpoint": "https://staff-relay.example/wire",
            "archive_id": "staff-arc",
            "repo_id": "edgepacer-ops",
            "min_level": "warn",
            "context": {
                "tenant_id": "t-1",
                "tenant_name": "Acme",
                "customer_archive_id": "cust-arc"
            }
        }}"#,
    );

    let tele = telemetry_config(&unified).expect("telemetry config");
    assert!(tele.enabled);
    assert_eq!(tele.subbox_endpoint, "https://staff-relay.example/wire");
    assert_eq!(tele.min_level, "warn");
    assert_eq!(tele.context.tenant_id, "t-1");
    assert!(!tele.config_hash.is_empty());
}

#[test]
fn telemetry_config_none_without_subbox_endpoint() {
    let unified = unified(
        r#"{"telemetry": {"enabled": true, "archive_id": "staff-arc", "repo_id": "edgepacer-ops"}}"#,
    );

    assert!(telemetry_config(&unified).is_none());
}

#[test]
fn telemetry_config_none_when_disabled() {
    assert!(telemetry_config(&unified(r#"{ "telemetry": { "enabled": false } }"#)).is_none());
}

#[test]
fn telemetry_fills_in_what_is_missing() {
    let tele = telemetry_config(&unified(
        r#"{"telemetry": {"enabled": true, "subbox_endpoint": "e", "archive_id": "a",
            "repo_id": "r", "context": {"tenant_name": 7}}}"#,
    ))
    .unwrap();
    assert_eq!(tele.min_level, "info");
    assert_eq!(tele.context, edgepacer::config::TelemetryContext::default());
}
