use edgepacer::bootstrap::{
    collect, collect_runtime_context, detect_container, detect_container_runtime, read_memory_mb,
    read_os_version, runtime_context_from_parts, ContainerTraces, HostFacts,
};
use edgepacer::common::UrlError;
use edgepacer::config::{AppConfig, AppConfigError, Cli};
use edgepacer::strmap::StrMap;
use edgepacer::version::resolve_version;

fn base_cli() -> Cli {
    Cli {
        resource: "agent-123".into(),
        rails: "https://rails.example".into(),
        server_token: None,
        account_token: None,
        poll_interval: 30,
        log_level: "info".into(),
        readiness_file: None,
        local_mode: false,
        directive_file: None,
        host_mode: false,
        log_format: None,
        debug: false,
    }
}

fn config(cli: Cli, stored: Option<&str>) -> Result<AppConfig, AppConfigError> {
    AppConfig::try_from_with_loader_and_host_mode_env(cli, stored, None)
}

fn config_with_host_mode_env(cli: Cli, env: Option<&str>) -> Result<AppConfig, AppConfigError> {
    AppConfig::try_from_with_loader_and_host_mode_env(cli, None, env)
}

#[test]
fn prefers_account_token_and_marks_config() {
    let mut cli = base_cli();
    cli.account_token = Some("account-token".into());

    let config = config(cli, None).unwrap();

    assert_eq!(config.token.as_deref(), Some("account-token"));
    assert!(config.is_account_token);
    assert!(config.host_mode);
}

#[test]
fn trims_account_token_secret_file_newline() {
    let mut cli = base_cli();
    cli.account_token = Some("account-token\n".into());

    let config = config(cli, None).unwrap();

    assert_eq!(config.token.as_deref(), Some("account-token"));
    assert!(config.is_account_token);
}

#[test]
fn uses_server_token_when_present() {
    let mut cli = base_cli();
    cli.server_token = Some("server-token".into());

    let config = config(cli, None).unwrap();

    assert_eq!(config.token.as_deref(), Some("server-token"));
    assert!(!config.is_account_token);
}

#[test]
fn host_mode_defaults_to_true() {
    let mut cli = base_cli();
    cli.server_token = Some("server-token".into());

    let config = config_with_host_mode_env(cli, None).unwrap();

    assert!(config.host_mode);
}

#[test]
fn host_mode_can_be_disabled_by_environment() {
    let mut cli = base_cli();
    cli.server_token = Some("server-token".into());

    let config = config_with_host_mode_env(cli, Some("false")).unwrap();

    assert!(!config.host_mode);
}

#[test]
fn host_mode_environment_overrides_legacy_flag() {
    let mut cli = base_cli();
    cli.server_token = Some("server-token".into());
    cli.host_mode = true;

    let config = config_with_host_mode_env(cli, Some("0")).unwrap();

    assert!(!config.host_mode);
}

#[test]
fn host_mode_rejects_invalid_environment_value() {
    let mut cli = base_cli();
    cli.server_token = Some("server-token".into());

    let err = config_with_host_mode_env(cli, Some("sometimes")).unwrap_err();

    assert_eq!(err, AppConfigError::InvalidHostMode);
    assert!(err.message("").contains("EDGEPACER_HOST_MODE"));
}

#[test]
fn host_mode_reads_every_spelling() {
    for (env, expected) in [
        ("1", true),
        ("TRUE", true),
        (" yes ", true),
        ("On", true),
        ("", true),
        ("   ", true),
        ("0", false),
        ("No", false),
        ("off\n", false),
    ] {
        let mut cli = base_cli();
        cli.local_mode = true;
        assert_eq!(config_with_host_mode_env(cli, Some(env)).unwrap().host_mode, expected);
    }
}

#[test]
fn trims_server_token_secret_file_newline() {
    let mut cli = base_cli();
    cli.server_token = Some("server-token\n".into());

    let config = config(cli, None).unwrap();

    assert_eq!(config.token.as_deref(), Some("server-token"));
    assert!(!config.is_account_token);
}

#[test]
fn rejects_both_account_and_server_tokens() {
    let mut cli = base_cli();
    cli.account_token = Some("account-token".into());
    cli.server_token = Some("server-token".into());

    let err = config(cli, None).unwrap_err();

    assert!(err.message("").contains("cannot set both"));
}

#[test]
fn rejects_blank_configured_token() {
    let mut cli = base_cli();
    cli.account_token = Some(" \n".into());

    let err = config(cli, None).unwrap_err();

    assert!(err.message("").contains("cannot be empty"));
    assert_eq!(err.message(""), "account bootstrap token cannot be empty");

    let mut cli = base_cli();
    cli.server_token = Some("".into());
    assert_eq!(config(cli, Some("stored")).unwrap_err(), AppConfigError::EmptyServerToken);
}

#[test]
fn falls_back_to_persisted_server_bootstrap_token() {
    let config = config(base_cli(), Some("persisted-server-token")).unwrap();

    assert_eq!(config.token.as_deref(), Some("persisted-server-token"));
    assert!(!config.is_account_token);
}

#[test]
fn trims_persisted_server_bootstrap_token() {
    let config = config(base_cli(), Some("persisted-server-token\n")).unwrap();

    assert_eq!(config.token.as_deref(), Some("persisted-server-token"));
    assert!(!config.is_account_token);
}

#[test]
fn allows_missing_token_in_local_mode() {
    let mut cli = base_cli();
    cli.local_mode = true;

    let config = config(cli, None).unwrap();

    assert!(config.token.is_none());
}

#[test]
fn accepts_loopback_http_control_plane_url() {
    let mut cli = base_cli();
    cli.rails = "http://localhost:3000".into();
    cli.server_token = Some("server-token".into());

    let config = config(cli, None).unwrap();

    assert_eq!(config.rails_url, "http://localhost:3000");
}

#[test]
fn rejects_remote_http_control_plane_url() {
    let mut cli = base_cli();
    cli.rails = "http://app.logpacer.com".into();
    cli.server_token = Some("server-token".into());

    let err = config(cli, None).unwrap_err();

    assert_eq!(err, AppConfigError::Url(UrlError::Insecure));
    assert!(err.message("http://app.logpacer.com").contains("must use HTTPS"));
}

#[test]
fn errors_when_no_token_source_exists() {
    let err = config(base_cli(), None).unwrap_err();

    assert!(err.message("").contains("bootstrap token"));
    assert_eq!(config(base_cli(), Some(" \n")).unwrap_err(), AppConfigError::NoToken);
}

#[test]
fn local_mode_needs_no_url() {
    let mut cli = base_cli();
    cli.local_mode = true;
    cli.rails = "".into();
    cli.readiness_file = Some("/run/ready".into());
    cli.directive_file = Some("/etc/directive.json".into());

    let config = config(cli, None).unwrap();
    assert!(config.local_mode);
    assert_eq!(config.resource_id, "agent-123");
    assert_eq!(config.poll_interval_secs, 30);
    assert_eq!(config.log_level, "info");
    assert_eq!(config.readiness_file.as_deref(), Some("/run/ready"));
    assert_eq!(config.directive_file.as_deref(), Some("/etc/directive.json"));
}

// ---------------------------------------------------------------------------
// The host
// ---------------------------------------------------------------------------

fn env(pairs: &[(&str, &str)]) -> StrMap<String> {
    let mut map = StrMap::new();
    for (key, value) in pairs {
        map.insert(key.to_string(), value.to_string());
    }
    map
}

fn no_traces() -> ContainerTraces<'static> {
    ContainerTraces { dockerenv: false, cgroup: None, service_account: false }
}

#[test]
fn collect_succeeds() {
    let facts = HostFacts {
        hostname: "web-1",
        os: "linux",
        architecture: "x86_64",
        os_release: Some("NAME=x\nPRETTY_NAME=\"Debian 12\"\n"),
        product_version: None,
        parallelism: None,
        meminfo: Some("MemTotal:       2048000 kB\n"),
        total_bytes: None,
        collected_at: "2026-01-01T00:00:00+00:00",
    };
    let metadata = collect(&facts, &no_traces());
    assert_eq!(metadata.hostname, "web-1");
    assert_eq!(metadata.os, "linux");
    assert_eq!(metadata.os_version, "Debian 12");
    assert_eq!(metadata.architecture, "x86_64");
    assert!(metadata.cpu_cores > 0);
    assert_eq!(metadata.memory_mb, 2000);
    assert!(!metadata.in_container);
    assert_eq!(metadata.collected_at, "2026-01-01T00:00:00+00:00");
}

#[test]
fn runtime_context_defaults_to_host() {
    let context = runtime_context_from_parts(false, None, false, &env(&[]));

    assert!(!context.in_container);
    assert_eq!(context.deployment_type, "host");
    assert_eq!(context.container_runtime, None);
    assert_eq!(context.namespace, None);
}

#[test]
fn runtime_context_includes_kubernetes_fields() {
    let context = runtime_context_from_parts(
        true,
        Some("containerd".into()),
        true,
        &env(&[
            ("KUBERNETES_SERVICE_HOST", "10.0.0.1"),
            ("POD_NAMESPACE", "observability"),
            ("DEPLOYMENT_NAME", "edgepacer"),
            ("POD_NAME", "edgepacer-abc"),
            ("NODE_NAME", "node-1"),
            ("CONTAINER_NAME", "agent"),
        ]),
    );

    assert!(context.in_container);
    assert_eq!(context.container_runtime.as_deref(), Some("containerd"));
    assert_eq!(context.deployment_type, "kubernetes");
    assert_eq!(context.namespace.as_deref(), Some("observability"));
    assert_eq!(context.deployment.as_deref(), Some("edgepacer"));
    assert_eq!(context.pod_name.as_deref(), Some("edgepacer-abc"));
    assert_eq!(context.node_name.as_deref(), Some("node-1"));
    assert_eq!(context.container.as_deref(), Some("agent"));
}

#[test]
fn runtime_context_stays_host_when_kubernetes_probe_is_false() {
    let context = runtime_context_from_parts(false, None, false, &env(&[]));

    assert_eq!(context.deployment_type, "host");
    assert_eq!(context.namespace, None);
}

#[test]
fn traces_tell_the_runtime() {
    let docker = ContainerTraces { dockerenv: true, cgroup: None, service_account: false };
    assert_eq!(detect_container_runtime(&docker).as_deref(), Some("docker"));
    let kubepods = ContainerTraces {
        dockerenv: false,
        cgroup: Some("0::/kubepods/burstable"),
        service_account: false,
    };
    assert_eq!(detect_container_runtime(&kubepods).as_deref(), Some("containerd"));
    let cgroup = ContainerTraces {
        dockerenv: false,
        cgroup: Some("1:name=systemd:/docker/abc"),
        service_account: false,
    };
    assert_eq!(detect_container_runtime(&cgroup).as_deref(), Some("docker"));
    let account = ContainerTraces { dockerenv: false, cgroup: None, service_account: true };
    assert_eq!(detect_container_runtime(&account).as_deref(), Some("containerd"));
    assert!(detect_container(&account));
    assert!(!detect_container(&no_traces()));

    let context = collect_runtime_context(&docker, &env(&[]));
    assert_eq!(context.deployment_type, "container");
    let context = collect_runtime_context(&docker, &env(&[("KUBERNETES_SERVICE_HOST", "1")]));
    assert_eq!(context.deployment_type, "kubernetes");
}

#[test]
fn the_system_is_named() {
    assert_eq!(read_os_version(Some("PRETTY_NAME=\"\"Odd\"\"\n"), None), "Odd");
    assert_eq!(read_os_version(Some("ID=x\n"), Some("14.5")), "macOS 14.5");
    assert_eq!(read_os_version(None, Some("")), "unknown");
    assert_eq!(read_os_version(None, None), "unknown");
}

#[test]
fn memory_is_read_in_mib() {
    assert_eq!(read_memory_mb(Some("MemFree: 1 kB\nMemTotal: x kB\nMemTotal: 4096 kB\n"), None), 4);
    assert_eq!(read_memory_mb(Some(""), Some(3 * 1024 * 1024 + 5)), 3);
    assert_eq!(read_memory_mb(None, None), 0);
}

#[test]
fn versions_say_what_was_built() {
    assert_eq!(resolve_version(Some(" 1.2.3\n"), Some("0.1.0"), None, None), "1.2.3");
    assert_eq!(
        resolve_version(Some("  "), Some("0.1.0"), Some("abc"), Some(" M x")),
        "0.1.0-dev+abc.dirty"
    );
    assert_eq!(resolve_version(None, None, None, Some("")), "0.0.0-dev+unknown");
}

#[test]
fn accepts_legacy_manager_flags() {
    let mut cli = base_cli();
    cli.host_mode = true;
    cli.log_format = Some("json".into());
    cli.debug = true;
    cli.server_token = Some("server-token".into());

    let config = config(cli, None).expect("legacy manager invocation must keep parsing");

    assert!(!config.local_mode, "legacy flags must not imply local mode");
}
