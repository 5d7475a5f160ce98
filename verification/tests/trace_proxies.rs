use edgepacer::config::fields::ConfigFieldError;
use edgepacer::config::trace_proxy::{all_trace_proxies_with_diagnostics, listen_address_texts};
use edgepacer::config::{all_trace_proxies, TraceProxyStreamConfig, UnifiedConfig};
use edgepacer::json::Json;
use edgepacer::strmap::StrMap;
use sha2::Digest;

fn unified(text: &str) -> UnifiedConfig {
    UnifiedConfig::new(Json::from_slice(text.as_bytes()).unwrap(), "etag-1".into())
}

/// The socket addresses among the texts of a configuration.
fn addresses(config: &UnifiedConfig) -> StrMap<String> {
    let mut known = StrMap::new();
    for text in listen_address_texts(config) {
        if let Some((ip, port)) = text.rsplit_once(':') {
            if ip.split('.').count() == 4 && port.parse::<u16>().is_ok() {
                known.insert(text.clone(), text.clone());
            }
        }
    }
    known
}

fn names(list: &[&str]) -> Vec<String> {
    list.iter().map(|s| s.to_string()).collect()
}

#[test]
fn extracts_trace_proxy_configs_from_unified_config() {
    let unified = unified(
        r#"{"traces": {
            "traces-proxy-agent-123": {
                "listen_address": "127.0.0.1:4318",
                "subbox_endpoint": "https://subbox.example",
                "archive_id": "arc_123",
                "repo_id": "repo_456",
                "allowed_service_names": ["checkout", "billing"]
            }
        }}"#,
    );

    let proxies = all_trace_proxies(&unified, &addresses(&unified));

    assert_eq!(proxies.len(), 1);
    assert_eq!(proxies[0].log_source_id, "traces-proxy-agent-123");
    assert_eq!(proxies[0].listen_address, "127.0.0.1:4318");
    assert_eq!(proxies[0].subbox_endpoint, "https://subbox.example");
    assert_eq!(proxies[0].archive_id, "arc_123");
    assert_eq!(proxies[0].repo_id, "repo_456");
    assert!(proxies[0].require_service_name);
    assert_eq!(proxies[0].allowed_service_names, names(&["billing", "checkout"]));
}

#[test]
fn skips_invalid_trace_proxy_entries() {
    let unified = unified(
        r#"{"traces": {
            "valid-proxy": {
                "listen_address": "127.0.0.1:4318",
                "subbox_endpoint": "https://subbox.example",
                "archive_id": "arc_valid",
                "repo_id": "repo_valid"
            },
            "missing-repo": {
                "listen_address": "127.0.0.1:4319",
                "subbox_endpoint": "https://subbox.example",
                "archive_id": "arc_missing_repo"
            },
            "bad-address": {
                "listen_address": "not-an-address",
                "subbox_endpoint": "https://subbox.example",
                "archive_id": "arc_bad",
                "repo_id": "repo_bad"
            },
            "bad-allowed-service-name": {
                "listen_address": "127.0.0.1:4320",
                "subbox_endpoint": "https://subbox.example",
                "archive_id": "arc_bad_allowed",
                "repo_id": "repo_bad_allowed",
                "allowed_service_names": ["checkout", ""]
            },
            "bad-require-service-name": {
                "listen_address": "127.0.0.1:4321",
                "subbox_endpoint": "https://subbox.example",
                "archive_id": "arc_bad_require",
                "repo_id": "repo_bad_require",
                "require_service_name": "true"
            }
        }}"#,
    );

    let report = all_trace_proxies_with_diagnostics(&unified, &addresses(&unified));
    let proxies = &report.values;

    assert_eq!(proxies.len(), 1);
    assert_eq!(proxies[0].log_source_id, "valid-proxy");
    assert!(report.errors.iter().any(|error| {
        matches!(
            error,
            ConfigFieldError::InvalidField {
                section: "traces",
                entry_id: Some(entry_id),
                field: "repo_id",
                expected: "non-empty string",
                ..
            } if entry_id == "missing-repo"
        )
    }));
    assert!(report.errors.iter().any(|error| {
        matches!(
            error,
            ConfigFieldError::InvalidField {
                section: "traces",
                entry_id: Some(entry_id),
                field: "listen_address",
                expected: "socket address",
                actual: Some(actual),
                ..
            } if entry_id == "bad-address" && actual == "not-an-address"
        )
    }));
    assert!(report.errors.iter().any(|error| {
        matches!(
            error,
            ConfigFieldError::InvalidField {
                section: "traces",
                entry_id: Some(entry_id),
                field: "allowed_service_names",
                expected: "array of non-empty strings",
                ..
            } if entry_id == "bad-allowed-service-name"
        )
    }));
    assert!(report.errors.iter().any(|error| {
        matches!(
            error,
            ConfigFieldError::InvalidField {
                section: "traces",
                entry_id: Some(entry_id),
                field: "require_service_name",
                expected: "boolean",
                ..
            } if entry_id == "bad-require-service-name"
        )
    }));
}

fn hash(
    address: &str,
    grpc: Option<&str>,
    endpoint: &str,
    archive: &str,
    repo: &str,
    require: bool,
    allowed: &[&str],
) -> String {
    TraceProxyStreamConfig::compute_hash(
        address,
        grpc,
        endpoint,
        archive,
        repo,
        require,
        &names(allowed),
    )
}

#[test]
fn trace_proxy_config_hash_changes_when_restart_fields_change() {
    let address = "127.0.0.1:4318";
    let endpoint = "https://subbox.example";
    let base = hash(address, None, endpoint, "arc_123", "repo_456", false, &[]);
    let changed_address = hash("127.0.0.1:4319", None, endpoint, "arc_123", "repo_456", false, &[]);
    let changed_endpoint =
        hash(address, None, "https://subbox-alt.example", "arc_123", "repo_456", false, &[]);
    let changed_archive = hash(address, None, endpoint, "arc_999", "repo_456", false, &[]);
    let changed_repo = hash(address, None, endpoint, "arc_123", "repo_999", false, &[]);
    let changed_policy =
        hash(address, None, endpoint, "arc_123", "repo_456", true, &["checkout"]);
    let added_grpc =
        hash(address, Some("127.0.0.1:4317"), endpoint, "arc_123", "repo_456", false, &[]);

    assert_ne!(base, changed_address);
    assert_ne!(base, changed_endpoint);
    assert_ne!(base, changed_archive);
    assert_ne!(base, changed_repo);
    assert_ne!(base, changed_policy);
    assert_ne!(base, added_grpc);

    let comma_literal = hash(address, None, endpoint, "arc_123", "repo_456", true, &["a,b"]);
    let split_names = hash(address, None, endpoint, "arc_123", "repo_456", true, &["a", "b"]);
    assert_ne!(comma_literal, split_names);
}

#[test]
fn the_hash_digests_lengths_and_fields() {
    let input = "1:a;0:;2:é;1:b;1:c;4:true;1:1;3:x:y;";
    assert_eq!(
        hash("a", None, "é", "b", "c", true, &["x:y"]),
        hex::encode(sha2::Sha256::digest(input.as_bytes()))
    );
}

#[test]
fn extracts_grpc_listen_address_when_present() {
    let unified = unified(
        r#"{"traces": {
            "traces-proxy-agent-123": {
                "listen_address": "127.0.0.1:4318",
                "grpc_listen_address": "127.0.0.1:4317",
                "subbox_endpoint": "https://subbox.example",
                "archive_id": "arc_123",
                "repo_id": "repo_456"
            }
        }}"#,
    );

    let proxies = all_trace_proxies(&unified, &addresses(&unified));

    assert_eq!(proxies.len(), 1);
    assert_eq!(proxies[0].grpc_listen_address.as_deref(), Some("127.0.0.1:4317"));
}

#[test]
fn grpc_listen_address_defaults_to_none() {
    let unified = unified(
        r#"{"traces": {
            "traces-proxy-agent-123": {
                "listen_address": "127.0.0.1:4318",
                "subbox_endpoint": "https://subbox.example",
                "archive_id": "arc_123",
                "repo_id": "repo_456"
            }
        }}"#,
    );

    let proxies = all_trace_proxies(&unified, &addresses(&unified));

    assert_eq!(proxies.len(), 1);
    assert_eq!(proxies[0].grpc_listen_address, None);
}

#[test]
fn skips_proxy_with_invalid_grpc_listen_address() {
    let unified = unified(
        r#"{"traces": {
            "bad-grpc-address": {
                "listen_address": "127.0.0.1:4318",
                "grpc_listen_address": "not-an-address",
                "subbox_endpoint": "https://subbox.example",
                "archive_id": "arc_bad_grpc",
                "repo_id": "repo_bad_grpc"
            }
        }}"#,
    );

    let report = all_trace_proxies_with_diagnostics(&unified, &addresses(&unified));

    assert!(report.values.is_empty());
    assert!(report.errors.iter().any(|error| {
        matches!(
            error,
            ConfigFieldError::InvalidField {
                section: "traces",
                entry_id: Some(entry_id),
                field: "grpc_listen_address",
                expected: "socket address",
                actual: Some(actual),
                ..
            } if entry_id == "bad-grpc-address" && actual == "not-an-address"
        )
    }));
}
