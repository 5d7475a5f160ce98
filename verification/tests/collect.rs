use edgepacer::config::services::{resolve_service_descriptions, sanitize_id, synthesized_source_id};
use edgepacer::config::{
    all_collect_streams, all_service_descriptions, resolved_collect_from_config, selector_matches,
    CheckpointAdoption, CollectStreamConfig, FileSourceFormat, LogStreamConfig, MultilineConfig,
    ResolvedCollectStreams, StreamAccessMethod, UnifiedConfig,
};
use edgepacer::discovery::cache::{DiscoveryCache, MatchStatus};
use edgepacer::discovery::census::Census;
use edgepacer::discovery::container::{Container, LocalFiles};
use edgepacer::json::Json;
use edgepacer::strmap::StrMap;

fn unified(text: &str) -> UnifiedConfig {
    UnifiedConfig::new(Json::from_slice(text.as_bytes()).unwrap(), "etag-1".into())
}

fn files(paths: &[&str]) -> LocalFiles {
    LocalFiles { paths: paths.iter().map(|p| p.to_string()).collect() }
}

fn map(pairs: &[(&str, &str)]) -> StrMap<String> {
    let mut m = StrMap::new();
    for (k, v) in pairs {
        m.insert(k.to_string(), v.to_string());
    }
    m
}

fn docker_container(id: &str, name: &str, log_path: &str) -> Container {
    Container {
        id: id.into(),
        name: name.into(),
        service_name: String::new(),
        service_name_explicit: false,
        image: "nginx:latest".into(),
        state: "running".into(),
        labels: StrMap::new(),
        env: Vec::new(),
        runtime: "docker".into(),
        log_path: log_path.into(),
        log_format: "plain_text".into(),
        pod_uid: String::new(),
        pod_name: String::new(),
        namespace: String::new(),
        node_name: String::new(),
        deployment: String::new(),
        workload_kind: String::new(),
        container_id: id.into(),
        container_name: String::new(),
        runtime_process: None,
    }
}

fn kamal_container(id: &str, role: &str, name: &str) -> Container {
    let mut c = docker_container(id, name, "");
    c.labels.insert("service".into(), "logpacer".into());
    c.labels.insert("role".into(), role.into());
    c.labels.insert("destination".into(), "prod".into());
    c
}

fn k8s_deployment_pod(pod: &str) -> Container {
    let mut c = docker_container(&format!("prod/{pod}/api"), &format!("{pod}-api"), "");
    c.runtime = "kubernetes".into();
    c.namespace = "prod".into();
    c.deployment = "api".into();
    c.workload_kind = "deployment".into();
    c.container_name = "api".into();
    c.pod_name = pod.into();
    c.node_name = "node-1".into();
    c.pod_uid = format!("{pod}-uid");
    c.log_path = format!("/var/log/pods/prod_{pod}_uid/api");
    c.service_name = "checkout".into();
    c.service_name_explicit = true;
    c
}

fn cache_with(containers: Vec<Container>) -> DiscoveryCache {
    let mut cache = DiscoveryCache::new();
    let mut census = Census::default();
    census.containers = containers;
    cache.update_all(&census);
    cache
}

fn service_entry(selector: &str, slug: &str, source_id: &str) -> String {
    format!(
        r#"{{
            "service_slug": "{slug}",
            "selector": {selector},
            "collect": {{
                "log_source_id": "{source_id}",
                "locator": "Opted.API",
                "container_identifier": "Opted.API",
                "matching_strategy": "env_var",
                "subbox_endpoint": "https://1.subbox.example.com/wire",
                "archive_id": "arc",
                "repo_id": "repo",
                "metadata": {{ "service_name": "Opted.API", "kind": "container" }},
                "forwarding_enabled": false
            }}
        }}"#
    )
}

fn services(selector: &str) -> UnifiedConfig {
    let entry = service_entry(selector, "opted-api", "service-42");
    unified(&format!(r#"{{"services": [{entry}]}}"#))
}

fn web() -> Container {
    kamal_container("aaa111", "web", "logpacer-web-prod-1a2b3c4")
}

// ---------------------------------------------------------------------------
// Directives
// ---------------------------------------------------------------------------

#[test]
fn collect_streams_require_subbox_endpoint_for_wire_shipping() {
    let unified = unified(
        r#"{"collect": {
            "src-wire": {
                "locator": "/var/log/app.log",
                "matching_strategy": "file_path",
                "subbox_endpoint": "https://1.subbox.example.com/wire",
                "archive_id": "arc",
                "repo_id": "repo"
            },
            "missing-subbox": {
                "locator": "/var/log/old.log",
                "matching_strategy": "file_path",
                "archive_id": "arc",
                "repo_id": "repo"
            }
        }}"#,
    );

    let streams = all_collect_streams(&unified);

    assert_eq!(streams.len(), 1);
    assert_eq!(streams[0].log_source_id, "src-wire");
    assert_eq!(streams[0].ship_endpoint(), "https://1.subbox.example.com/wire");
    assert_eq!(streams[0].subbox_endpoint, "https://1.subbox.example.com/wire");

    let same_stream_different_endpoint = CollectStreamConfig::compute_hash(
        "/var/log/app.log",
        "file_path",
        "https://2.subbox.example.com/wire",
        "arc",
        "repo",
        None,
        false,
    );
    assert_ne!(streams[0].config_hash, same_stream_different_endpoint);
}

#[test]
fn parses_collect_map_entries() {
    let unified = unified(
        r#"{"collect": {
            "collectable-42": {
                "locator": "/var/log/app.log",
                "matching_strategy": "file_path",
                "subbox_endpoint": "https://subbox.example.com/wire",
                "archive_id": "arc_1",
                "repo_id": "repo_1"
            }
        }}"#,
    );

    let streams = all_collect_streams(&unified);

    assert_eq!(streams.len(), 1);
    assert_eq!(streams[0].log_source_id, "collectable-42");
    assert_eq!(streams[0].locator, "/var/log/app.log");
    assert_eq!(streams[0].matching_strategy, "file_path");
}

#[test]
fn resolved_collect_from_config_uses_discovery_cache() {
    let unified = unified(
        r#"{"collect": {
            "collect-file": {
                "locator": "file-app",
                "matching_strategy": "container_name",
                "subbox_endpoint": "https://collect.example.com/wire",
                "archive_id": "arc_file",
                "repo_id": "repo_file"
            },
            "collect-stream": {
                "locator": "stream-app",
                "matching_strategy": "container_name",
                "subbox_endpoint": "https://collect.example.com/wire",
                "archive_id": "arc_stream",
                "repo_id": "repo_stream",
                "multiline": {
                    "start_pattern": "^\\d{4}-\\d{2}-\\d{2}",
                    "max_lines": 500,
                    "timeout_seconds": 5
                }
            }
        }}"#,
    );
    let log_path = "/tmp/logs/file-app.log";
    let cache = cache_with(vec![
        docker_container("file-abc123def456", "file-app", log_path),
        docker_container("stream-abc123def456", "stream-app", ""),
    ]);

    let resolved = resolved_collect_from_config(&unified, &cache, &files(&[log_path]));

    assert_eq!(resolved.file_streams.len(), 1);
    let file = &resolved.file_streams[0];
    assert_eq!(file.log_source_id, "collect-file");
    assert_eq!(file.path, log_path);
    assert_eq!(file.endpoint, "https://collect.example.com/wire");
    assert_eq!(file.archive_id, "arc_file");
    assert_eq!(file.repo_id, "repo_file");
    assert_eq!(file.source_format, FileSourceFormat::DockerJson);

    assert_eq!(resolved.streaming_sources.len(), 1);
    let stream = &resolved.streaming_sources[0];
    assert_eq!(stream.log_source_id, "collect-stream");
    assert_eq!(
        stream.access_method,
        StreamAccessMethod::DockerApi { container_id: "stream-abc123def456".into() }
    );
    assert_eq!(stream.endpoint, "https://collect.example.com/wire");
    assert_eq!(stream.archive_id, "arc_stream");
    assert_eq!(stream.repo_id, "repo_stream");
    assert_eq!(
        stream.multiline.as_ref().map(|config| {
            (config.start_pattern.as_str(), config.max_lines, config.timeout_secs)
        }),
        Some((r"^\d{4}-\d{2}-\d{2}", 500, 5))
    );
}

#[test]
fn windows_event_log_collect_source_resolves_directly() {
    let unified = unified(
        r#"{"collect": {
            "windows-application": {
                "locator": "Application",
                "access_method": "windows_event_log",
                "subbox_endpoint": "https://collect.example.com/wire",
                "archive_id": "arc_win",
                "repo_id": "repo_win"
            }
        }}"#,
    );
    let cache = DiscoveryCache::new();

    let resolved = resolved_collect_from_config(&unified, &cache, &files(&[]));

    assert!(resolved.file_streams.is_empty());
    assert_eq!(resolved.streaming_sources.len(), 1);
    let stream = &resolved.streaming_sources[0];
    assert_eq!(stream.log_source_id, "windows-application");
    assert_eq!(
        stream.access_method,
        StreamAccessMethod::WindowsEventLog { channel: "Application".into() }
    );
    assert_eq!(stream.endpoint, "https://collect.example.com/wire");
    assert_eq!(stream.archive_id, "arc_win");
    assert_eq!(stream.repo_id, "repo_win");

    assert_eq!(resolved.diagnostics.len(), 1);
    assert_eq!(resolved.diagnostics[0].status, MatchStatus::Matched);
    assert!(resolved.diagnostics[0].detail.contains("windows_event_log"));
}

#[test]
fn stamp_resource_identifier_defaults_false_and_opts_in() {
    let unified = unified(
        r#"{"collect": {
            "default-src": {
                "locator": "/var/log/a.log",
                "matching_strategy": "file_path",
                "subbox_endpoint": "https://s/wire",
                "archive_id": "arc",
                "repo_id": "repo"
            },
            "stamped-src": {
                "locator": "/var/log/b.log",
                "matching_strategy": "file_path",
                "subbox_endpoint": "https://s/wire",
                "archive_id": "arc",
                "repo_id": "repo",
                "stamp_resource_identifier": true
            }
        }}"#,
    );

    let streams = all_collect_streams(&unified);
    let by_id = |id: &str| streams.iter().find(|s| s.log_source_id == id).unwrap();

    assert!(
        !by_id("default-src").stamp_resource_identifier,
        "an absent flag defaults to false"
    );
    assert!(
        by_id("stamped-src").stamp_resource_identifier,
        "an explicit true opts the source in"
    );

    let stamped = CollectStreamConfig::compute_hash(
        "/var/log/a.log",
        "file_path",
        "https://s/wire",
        "arc",
        "repo",
        None,
        true,
    );
    assert_ne!(by_id("default-src").config_hash, stamped);
}

#[test]
fn collect_streams_skip_empty_required_fields() {
    let unified = unified(
        r#"{"collect": {
            "valid": {
                "locator": "/var/log/app.log",
                "matching_strategy": "file_path",
                "subbox_endpoint": "https://s/wire",
                "archive_id": "arc",
                "repo_id": "repo"
            },
            "empty-endpoint": {
                "locator": "/var/log/app.log",
                "matching_strategy": "file_path",
                "subbox_endpoint": "",
                "archive_id": "arc",
                "repo_id": "repo"
            },
            "empty-locator": {
                "locator": "",
                "matching_strategy": "file_path",
                "subbox_endpoint": "https://s/wire",
                "archive_id": "arc",
                "repo_id": "repo"
            }
        }}"#,
    );

    let streams = all_collect_streams(&unified);

    assert_eq!(streams.len(), 1);
    assert_eq!(streams[0].log_source_id, "valid");
}

#[test]
fn resolve_emits_diagnostics_for_present_and_missing_files() {
    let present = "/tmp/logs/present.log";
    let unified = unified(
        r#"{"collect": {
            "has-file": {
                "locator": "/tmp/logs/present.log",
                "matching_strategy": "file_path",
                "subbox_endpoint": "https://s/wire",
                "archive_id": "arc",
                "repo_id": "repo"
            },
            "no-file": {
                "locator": "/definitely/missing.log",
                "matching_strategy": "file_path",
                "subbox_endpoint": "https://s/wire",
                "archive_id": "arc",
                "repo_id": "repo"
            }
        }}"#,
    );
    let cache = DiscoveryCache::new();
    let resolved = resolved_collect_from_config(&unified, &cache, &files(&[present]));

    assert_eq!(resolved.file_streams.len(), 1);
    assert_eq!(resolved.file_streams[0].source_format, FileSourceFormat::Plain);
    let by_id = |id: &str| resolved.diagnostics.iter().find(|d| d.log_source_id == id).unwrap();
    assert_eq!(by_id("has-file").status, MatchStatus::Matched);
    assert_eq!(by_id("no-file").status, MatchStatus::NotFound);
    assert!(by_id("no-file").detail.contains("no file at"));
}

#[test]
fn resolve_refuses_ambiguous_weak_container_match() {
    let unified = unified(
        r#"{"collect": {
            "amb": {
                "locator": "aaaa11112222zz",
                "matching_strategy": "container_id",
                "subbox_endpoint": "https://s/wire",
                "archive_id": "arc",
                "repo_id": "repo"
            }
        }}"#,
    );
    let cache = cache_with(vec![
        docker_container("aaaa11112222aa", "svc-a", ""),
        docker_container("aaaa11112222bb", "svc-b", ""),
    ]);

    let resolved = resolved_collect_from_config(&unified, &cache, &files(&[]));

    assert!(resolved.file_streams.is_empty());
    assert!(resolved.streaming_sources.is_empty());
    assert_eq!(resolved.diagnostics.len(), 1);
    assert_eq!(resolved.diagnostics[0].status, MatchStatus::Ambiguous);
}

// ---------------------------------------------------------------------------
// Services
// ---------------------------------------------------------------------------

#[test]
fn parses_service_descriptions_ignoring_unknown_fields() {
    let config = services(r#"{"service_name": "Opted.API"}"#);

    let descriptions = all_service_descriptions(&config);

    assert_eq!(descriptions.len(), 1);
    let description = &descriptions[0];
    assert_eq!(description.service_slug, "opted-api");
    assert_eq!(
        description.selector.get("service_name").map(String::as_str),
        Some("Opted.API")
    );
    assert_eq!(description.collect.log_source_id, "service-42");
    assert_eq!(
        description.collect.subbox_endpoint,
        "https://1.subbox.example.com/wire"
    );
    assert_eq!(description.collect.matching_strategy, "env_var");
}

#[test]
fn absent_or_empty_services_block_is_a_noop() {
    assert!(all_service_descriptions(&unified("{}")).is_empty());
    assert!(all_service_descriptions(&unified(r#"{ "services": [] }"#)).is_empty());
    assert!(all_service_descriptions(&unified(r#"{ "services": {} }"#)).is_empty());
}

#[test]
fn malformed_description_is_skipped_and_the_rest_still_applies() {
    let valid = service_entry(r#"{"kamal.service": "logpacer"}"#, "opted-api", "service-42");
    let collect = r#"{
        "log_source_id": "service-42",
        "locator": "Opted.API",
        "container_identifier": "Opted.API",
        "matching_strategy": "env_var",
        "subbox_endpoint": "https://1.subbox.example.com/wire",
        "archive_id": "arc",
        "repo_id": "repo",
        "metadata": { "service_name": "Opted.API", "kind": "container" },
        "forwarding_enabled": false
    }"#;
    let config = unified(&format!(
        r#"{{"services": [
            {{ "service_slug": "no-selector", "collect": {collect} }},
            {{ "service_slug": "non-string-atom", "selector": {{"kamal.service": 7}}, "collect": {collect} }},
            {{ "service_slug": "no-collect", "selector": {{"kamal.service": "x"}} }},
            {{ "service_slug": "no-endpoint", "selector": {{"kamal.service": "x"}},
              "collect": {{"log_source_id": "service-9", "archive_id": "arc", "repo_id": "repo"}} }},
            "not-an-object",
            {valid}
        ]}}"#
    ));

    let descriptions = all_service_descriptions(&config);

    assert_eq!(descriptions.len(), 1);
    assert_eq!(descriptions[0].service_slug, "opted-api");
}

#[test]
fn kamal_container_matches_and_synthesizes_expected_source_id() {
    let config = services(r#"{"kamal.service": "logpacer", "kamal.destination": "prod"}"#);
    let cache = cache_with(vec![web()]);

    let resolved = resolved_collect_from_config(&config, &cache, &files(&[]));

    assert!(resolved.file_streams.is_empty());
    assert_eq!(resolved.streaming_sources.len(), 1);
    let source = &resolved.streaming_sources[0];
    assert_eq!(source.log_source_id, "service-42/logpacer-web-prod");
    assert_eq!(
        source.access_method,
        StreamAccessMethod::DockerApi { container_id: "aaa111".into() }
    );
    assert_eq!(source.endpoint, "https://1.subbox.example.com/wire");

    assert_eq!(
        resolved.checkpoint_adoptions,
        vec![CheckpointAdoption {
            legacy_log_source_id: "service-42".into(),
            log_source_id: "service-42/logpacer-web-prod".into(),
        }]
    );
}

#[test]
fn earlier_description_position_wins() {
    let first = service_entry(r#"{"kamal.service": "logpacer"}"#, "first", "service-1");
    let second = service_entry(r#"{"kamal.destination": "prod"}"#, "second", "service-2");
    let config = unified(&format!(r#"{{ "services": [{first}, {second}] }}"#));
    let cache = cache_with(vec![web()]);

    let resolved = resolved_collect_from_config(&config, &cache, &files(&[]));

    assert_eq!(resolved.streaming_sources.len(), 1);
    assert_eq!(
        resolved.streaming_sources[0].log_source_id,
        "service-1/logpacer-web-prod"
    );
}

#[test]
fn description_and_legacy_directive_yield_one_pipeline() {
    let entry = service_entry(r#"{"kamal.service": "logpacer"}"#, "opted-api", "service-42");
    let config = unified(&format!(
        r#"{{
            "services": [{entry}],
            "collect": {{
                "service-42": {{
                    "locator": "logpacer-web-prod-1a2b3c4",
                    "matching_strategy": "container_name",
                    "subbox_endpoint": "https://1.subbox.example.com/wire",
                    "archive_id": "arc",
                    "repo_id": "repo"
                }}
            }}
        }}"#
    ));
    let cache = cache_with(vec![web()]);

    let resolved = resolved_collect_from_config(&config, &cache, &files(&[]));

    assert!(resolved.file_streams.is_empty());
    assert_eq!(resolved.streaming_sources.len(), 1, "one pipeline per container");
    assert_eq!(
        resolved.streaming_sources[0].log_source_id,
        "service-42/logpacer-web-prod"
    );

    let legacy = resolved
        .diagnostics
        .iter()
        .find(|d| d.log_source_id == "service-42")
        .expect("legacy directive diagnostic");
    assert_eq!(legacy.status, MatchStatus::Matched);
    assert!(legacy.detail.contains("claimed"));
}

#[test]
fn criteria_edit_with_same_match_set_is_a_pipeline_noop() {
    let narrow = services(r#"{"kamal.service": "logpacer"}"#);
    let widened = services(
        r#"{"kamal.service": "logpacer", "kamal.destination": "prod", "kamal.role": "web"}"#,
    );
    let cache = cache_with(vec![web()]);

    let before = resolved_collect_from_config(&narrow, &cache, &files(&[]));
    let after = resolved_collect_from_config(&widened, &cache, &files(&[]));

    let key = |r: &ResolvedCollectStreams| {
        r.streaming_sources
            .iter()
            .map(|s| (s.log_source_id.clone(), s.config_hash.clone()))
            .collect::<Vec<_>>()
    };
    assert_eq!(key(&before), key(&after));
    assert_eq!(before.streaming_sources.len(), 1);
}

#[test]
fn empty_selector_never_matches() {
    let config = services("{}");
    let cache = cache_with(vec![web()]);

    let resolved = resolved_collect_from_config(&config, &cache, &files(&[]));

    assert!(resolved.file_streams.is_empty());
    assert!(resolved.streaming_sources.is_empty());
}

#[test]
fn fungible_k8s_replicas_synthesize_distinct_ids() {
    let one = k8s_deployment_pod("api-7b4f9c8d5-aaaaa");
    let two = k8s_deployment_pod("api-7b4f9c8d5-bbbbb");
    assert_eq!(one.stable_instance_id(), one.stable_id());
    assert_eq!(
        synthesized_source_id("service-42", &one),
        "service-42/prod/api/api/api-7b4f9c8d5-aaaaa"
    );
    assert_ne!(
        synthesized_source_id("service-42", &one),
        synthesized_source_id("service-42", &two)
    );

    let mut stateful = k8s_deployment_pod("postgres-0");
    stateful.deployment = "postgres".into();
    stateful.workload_kind = "statefulset".into();
    stateful.container_name = "db".into();
    assert_eq!(
        synthesized_source_id("service-7", &stateful),
        "service-7/prod/postgres/db/0"
    );

    let docker = docker_container("aaa", "my-nginx", "");
    assert_eq!(synthesized_source_id("service-9", &docker), "service-9/my-nginx");
}

#[test]
fn two_same_node_fungible_replicas_collect_as_two_sources() {
    let config = services(r#"{"service_name": "checkout"}"#);
    let cache = cache_with(vec![
        k8s_deployment_pod("api-7b4f9c8d5-aaaaa"),
        k8s_deployment_pod("api-7b4f9c8d5-bbbbb"),
    ]);

    let resolved = resolved_collect_from_config(&config, &cache, &files(&[]));

    assert_eq!(resolved.file_streams.len(), 2);
    let ids: Vec<&str> = resolved.file_streams.iter().map(|s| s.log_source_id.as_str()).collect();
    assert_eq!(
        ids,
        vec![
            "service-42/prod/api/api/api-7b4f9c8d5-aaaaa",
            "service-42/prod/api/api/api-7b4f9c8d5-bbbbb",
        ]
    );
    assert_ne!(resolved.file_streams[0].path, resolved.file_streams[1].path);
}

#[test]
fn sanitized_state_dir_collision_keeps_first_source_and_skips_second() {
    let config = services(r#"{"image.repo": "nginx"}"#);
    let cache = cache_with(vec![
        docker_container("aaa111", "web.1", ""),
        docker_container("bbb222", "web_1", ""),
    ]);

    let resolved = resolved_collect_from_config(&config, &cache, &files(&[]));

    assert_eq!(resolved.streaming_sources.len(), 1);
    assert_eq!(resolved.streaming_sources[0].log_source_id, "service-42/web.1");
    assert_eq!(sanitize_id("service-42/web.1"), sanitize_id("service-42/web_1"));
}

#[test]
fn non_explicit_k8s_workload_collects_only_via_selector() {
    let mut pod = k8s_deployment_pod("api-7b4f9c8d5-aaaaa");
    pod.service_name = String::new();
    pod.service_name_explicit = false;
    let cache = cache_with(vec![pod]);

    let matching = services(r#"{"k8s.namespace": "prod", "k8s.workload": "api"}"#);
    let resolved = resolved_collect_from_config(&matching, &cache, &files(&[]));
    assert_eq!(resolved.file_streams.len(), 1);
    let stream = &resolved.file_streams[0];
    assert_eq!(stream.log_source_id, "service-42/prod/api/api/api-7b4f9c8d5-aaaaa");
    assert_eq!(stream.source_format, FileSourceFormat::KubernetesCri);

    let resolved = resolved_collect_from_config(&unified("{}"), &cache, &files(&[]));
    assert!(resolved.file_streams.is_empty());
    assert!(resolved.streaming_sources.is_empty());
}

#[test]
fn selectors_need_every_atom_to_agree() {
    let atoms = map(&[("a", "1"), ("b", "2")]);
    assert!(selector_matches(&map(&[("a", "1")]), &atoms));
    assert!(selector_matches(&map(&[("b", "2"), ("a", "1")]), &atoms));
    assert!(!selector_matches(&map(&[("a", "1"), ("b", "3")]), &atoms));
    assert!(!selector_matches(&map(&[("c", "1")]), &atoms));
    assert!(!selector_matches(&map(&[]), &atoms));
}

#[test]
fn claimed_locators_are_reported() {
    let descriptions = all_service_descriptions(&services(r#"{"kamal.service": "logpacer"}"#));
    let cache = cache_with(vec![web()]);
    let mut resolved = ResolvedCollectStreams::default();
    let claimed = resolve_service_descriptions(&descriptions, &cache, &mut resolved, &files(&[]));
    assert_eq!(claimed.len(), 1);
    assert_eq!(resolved.streaming_sources.len(), 1);
}

#[test]
fn moving_a_bar_between_fields_changes_the_hash() {
    let stream = |path: &str, endpoint: &str| {
        LogStreamConfig::compute_hash(
            path,
            endpoint,
            "arc",
            "repo",
            None,
            FileSourceFormat::Plain,
            false,
        )
    };
    assert_ne!(stream("a|b", "c"), stream("a", "b|c"));
    assert_ne!(stream("1:a;", "c"), stream("a", "1:;c"));
    assert_eq!(stream("a|b", "c"), stream("a|b", "c"));

    let directive = |locator: &str, strategy: &str| {
        CollectStreamConfig::compute_hash(locator, strategy, "e", "arc", "repo", None, false)
    };
    assert_ne!(directive("a|b", "c"), directive("a", "b|c"));
}

#[test]
fn configuration_hashes_are_digests_of_the_fields() {
    let plain = LogStreamConfig::compute_hash(
        "/var/log/a.log",
        "https://s/wire",
        "arc",
        "repo",
        None,
        FileSourceFormat::Plain,
        false,
    );
    assert_eq!(plain, "f9da174673ddabaf333f685b17fce0de2782fb5fc7925b1c92e477e488d6ff0d");
    let multiline =
        MultilineConfig { start_pattern: r"^\d".to_string(), max_lines: 500, timeout_secs: 5 };
    let stamped = CollectStreamConfig::compute_hash(
        "/var/log/a.log",
        "file_path",
        "https://s/wire",
        "arc",
        "repo",
        Some(&multiline),
        true,
    );
    assert_eq!(stamped, "6a88f55cc931677a692b53a2f5595ff1443c68cf300c021d2fb57489c16a6fa6");
    assert_eq!(stamped.len(), 64);

    // Where a field holds a bar, every field is measured.
    let barred = LogStreamConfig::compute_hash(
        "/var/log/a|b.log",
        "https://s/wire",
        "arc",
        "repo",
        None,
        FileSourceFormat::Plain,
        false,
    );
    assert_eq!(barred, "17474b4434c8e0e5e770fc6f80bbff88e4c1a4dd911f6c24258d41e3b1060495");
}

#[test]
fn resolving_again_gives_the_same() {
    let config = services(r#"{"image.repo": "nginx"}"#);
    let cache = cache_with(vec![
        docker_container("aaa111", "web", ""),
        docker_container("aaa111", "api", ""),
        docker_container("bbb222", "db", ""),
    ]);
    let ids = || -> Vec<String> {
        resolved_collect_from_config(&config, &cache, &files(&[]))
            .streaming_sources
            .iter()
            .map(|s| s.log_source_id.clone())
            .collect()
    };
    assert_eq!(ids(), vec!["service-42/api", "service-42/db"]);
    assert_eq!(ids(), ids());
}
