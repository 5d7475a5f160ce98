use edgepacer::discovery::container::RuntimeProcessIdentity;
use edgepacer::discovery::cri::{
    cri_containers, cri_socket_paths, crictl_args, is_cri_available, map_cri_state,
    parse_cri_init_pids, parse_crictl_output, parse_crictl_pods_output, read_crictl_containers,
    resolve_local_cri_endpoint, running_ids,
};
use edgepacer::discovery::crictl::{
    containers_in_reply, inspect_running_container_processes, merge_singles, missing_ids,
    sandboxes_in_reply, CommandReply, SingleInspection,
};
use edgepacer::discovery::docker::{
    clean_name, default_docker_host, docker_container, docker_context_host_from_meta,
    explicit_service_name_from_env, extract_service_name, filter_env, host_kind, is_running,
    parse_current_context, read_current_docker_context_host, resolve_docker_connection_target,
    DockerConnectionTarget, DockerDetail, DockerSummary, HostKind,
};
use edgepacer::discovery::files::settle_log_format;
use edgepacer::outline::{outline, Outline};
use edgepacer::strmap::StrMap;
use std::collections::HashMap;

const PLATFORM_DEFAULT_DOCKER_HOST: &str = "unix:///var/run/docker.sock";

fn list(items: &[&str]) -> Vec<String> {
    items.iter().map(|s| s.to_string()).collect()
}

// ---------------------------------------------------------------------------
// CRI
// ---------------------------------------------------------------------------

#[test]
fn configured_local_endpoint_is_pinned_and_remote_configuration_never_falls_back() {
    let sockets = vec!["/custom/runtime.sock".to_string(), cri_socket_paths()[0].clone()];

    assert_eq!(
        resolve_local_cri_endpoint(Some("unix:///custom/runtime.sock"), &sockets).as_deref(),
        Some("unix:///custom/runtime.sock")
    );
    for endpoint in [
        "tcp://runtime.example:1234",
        "npipe:////./pipe/containerd",
        "relative/runtime.sock",
        "unix:///missing/runtime.sock",
    ] {
        assert_eq!(
            resolve_local_cri_endpoint(Some(endpoint), &sockets),
            None,
            "configured endpoint {endpoint:?} must not fall back"
        );
    }
}

#[test]
fn default_endpoint_selection_is_deterministic() {
    let selected = vec![cri_socket_paths()[1].clone()];
    assert_eq!(
        resolve_local_cri_endpoint(None, &selected).as_deref(),
        Some("unix:///run/crio/crio.sock")
    );
}

#[test]
fn crictl_runtime_endpoint_flag_precedes_the_subcommand() {
    let args = crictl_args(
        "unix:///run/containerd/containerd.sock",
        &list(&["inspect", "-o", "json", "container-id"]),
    );

    assert_eq!(
        args,
        [
            "--runtime-endpoint",
            "unix:///run/containerd/containerd.sock",
            "inspect",
            "-o",
            "json",
            "container-id"
        ]
    );
}

#[test]
fn test_map_cri_state() {
    assert_eq!(map_cri_state("CONTAINER_RUNNING"), "running");
    assert_eq!(map_cri_state("RUNNING"), "running");
    assert_eq!(map_cri_state("CONTAINER_EXITED"), "exited");
    assert_eq!(map_cri_state("EXITED"), "exited");
    assert_eq!(map_cri_state("CONTAINER_CREATED"), "created");
    assert_eq!(map_cri_state("CREATED"), "created");
    assert_eq!(map_cri_state("CONTAINER_UNKNOWN"), "unknown");
    assert_eq!(map_cri_state("UNKNOWN"), "unknown");
    assert_eq!(map_cri_state("SomethingElse"), "somethingelse");
    assert_eq!(map_cri_state("container_running"), "running");
}

#[test]
fn test_parse_crictl_output() {
    let json = r#"{
        "containers": [
            {
                "id": "abc123def456",
                "podSandboxId": "pod-sandbox-1",
                "metadata": {"name": "nginx"},
                "imageRef": "docker.io/library/nginx:latest",
                "state": "CONTAINER_RUNNING",
                "labels": {"app": "web"}
            }
        ]
    }"#;

    let containers = parse_crictl_output(json.as_bytes()).unwrap();
    assert_eq!(containers.len(), 1);

    let c = &containers[0];
    assert_eq!(c.id.as_deref(), Some("abc123def456"));
    assert_eq!(c.pod_sandbox_id.as_deref(), Some("pod-sandbox-1"));
    assert_eq!(c.name.as_deref(), Some("nginx"));
    assert_eq!(c.image_ref.as_deref(), Some("docker.io/library/nginx:latest"));
    assert_eq!(c.state.as_deref(), Some("CONTAINER_RUNNING"));
    assert_eq!(c.labels.get("app").map(|s| s.as_str()), Some("web"));
}

#[test]
fn test_parse_crictl_pods_output() {
    let json = r#"{
        "items": [
            {
                "id": "pod-sandbox-1",
                "metadata": {
                    "name": "nginx-pod",
                    "namespace": "default",
                    "uid": "uid-123"
                }
            }
        ]
    }"#;

    let items = parse_crictl_pods_output(json.as_bytes()).unwrap();
    assert_eq!(items.len(), 1);

    let pod = &items[0];
    assert_eq!(pod.id, "pod-sandbox-1");
    assert_eq!(pod.pod_name, "nginx-pod");
    assert_eq!(pod.namespace, "default");
    assert_eq!(pod.pod_uid, "uid-123");
}

#[test]
fn listed_containers_know_their_sandbox_and_process() {
    let listed = parse_crictl_output(
        br#"{"containers": [
            {"id": "a", "podSandboxId": "s", "metadata": {"name": "web"},
             "imageRef": "nginx:1", "state": "CONTAINER_RUNNING", "labels": {}},
            {"id": "b", "state": "CONTAINER_EXITED"}
        ]}"#,
    )
    .unwrap();
    let sandboxes = parse_crictl_pods_output(
        br#"{"items": [{"id": "s", "metadata": {"name": "pod", "namespace": "ns", "uid": "u"}}]}"#,
    )
    .unwrap();
    assert_eq!(running_ids(&listed), list(&["a"]));
    let mut processes = StrMap::new();
    let identity = RuntimeProcessIdentity { pid: 7, start_time_ticks: 9 };
    processes.insert("a".to_string(), identity);
    let containers = cri_containers(listed, &sandboxes, &processes);
    assert_eq!(containers.len(), 2);
    assert_eq!(containers[0].namespace, "ns");
    assert_eq!(containers[0].pod_name, "pod");
    assert_eq!(containers[0].pod_uid, "u");
    assert_eq!(containers[0].state, "running");
    assert_eq!(containers[0].runtime_process, Some(identity));
    assert_eq!(containers[1].state, "exited");
    assert_eq!(containers[1].runtime_process, None);
}

#[test]
fn parses_standard_and_legacy_cri_init_pid_shapes() {
    let json = br#"[
        {
            "status": {"id": "containerd-id", "state": "CONTAINER_RUNNING"},
            "info": {"pid": 4102}
        },
        {
            "status": {"id": "crio-id", "state": "RUNNING"},
            "pid": " 5103 "
        }
    ]"#;

    let pids = parse_cri_init_pids(json).unwrap();

    assert_eq!(pids.get("containerd-id"), Some(&4102));
    assert_eq!(pids.get("crio-id"), Some(&5103));
}

#[test]
fn parses_single_cri_inspect_record() {
    let json = br#"{
        "status": {"id": "only-id", "state": "CONTAINER_RUNNING"},
        "info": {"pid": "6123"}
    }"#;

    assert_eq!(parse_cri_init_pids(json).unwrap().get("only-id"), Some(&6123));
}

#[test]
fn parses_pre_v1_31_concatenated_cri_inspect_records() {
    let json = br#"
        {
            "status": {"id": "first-id", "state": "CONTAINER_RUNNING"},
            "info": {"pid": 7101}
        }
        {
            "status": {"id": "second-id", "state": "CONTAINER_RUNNING"},
            "info": {"pid": 7102}
        }
    "#;

    let pids = parse_cri_init_pids(json).unwrap();

    assert_eq!(pids.get("first-id"), Some(&7101));
    assert_eq!(pids.get("second-id"), Some(&7102));
}

#[test]
fn one_conflicting_cri_record_does_not_erase_healthy_ids() {
    let json = br#"[
        {"status": {"id": "healthy", "state": "CONTAINER_RUNNING"}, "info": {"pid": 7201}},
        {"status": {"id": "conflict", "state": "CONTAINER_RUNNING"}, "info": {"pid": 7202}},
        {"status": {"id": "conflict", "state": "CONTAINER_RUNNING"}, "info": {"pid": 7203}}
    ]"#;

    let pids = parse_cri_init_pids(json).unwrap();

    assert_eq!(pids.get("healthy"), Some(&7201));
    assert!(!pids.contains_key("conflict"));
}

#[test]
fn malformed_or_ambiguous_cri_pids_fail_closed() {
    let json = br#"[
        {"status": {"id": "zero", "state": "CONTAINER_RUNNING"}, "info": {"pid": 0}},
        {"status": {"id": "negative", "state": "CONTAINER_RUNNING"}, "info": {"pid": -1}},
        {"status": {"id": "fraction", "state": "CONTAINER_RUNNING"}, "info": {"pid": 12.5}},
        {"status": {"id": "text", "state": "CONTAINER_RUNNING"}, "info": {"pid": "twelve"}},
        {"status": {"id": "missing", "state": "CONTAINER_RUNNING"}, "info": {}},
        {"status": {"id": "exited", "state": "CONTAINER_EXITED"}, "info": {"pid": 99}},
        {
            "status": {"id": "conflicting-locations", "state": "CONTAINER_RUNNING"},
            "info": {"pid": 100},
            "pid": 101
        },
        {"status": {"id": "duplicate", "state": "CONTAINER_RUNNING"}, "info": {"pid": 200}},
        {"status": {"id": "duplicate", "state": "CONTAINER_RUNNING"}, "info": {"pid": 201}}
    ]"#;

    assert!(parse_cri_init_pids(json).unwrap().is_empty());
    assert_eq!(
        parse_cri_init_pids(b"{broken").err().as_deref(),
        Some("key must be a string at line 1 column 2")
    );
    assert!(parse_cri_init_pids(b"{} [").is_err());
}

#[test]
fn test_not_available() {
    assert!(!is_cri_available(None, &Vec::new()));
    assert!(is_cri_available(None, &cri_socket_paths()));
}

#[test]
fn what_inspection_missed_is_asked_for_again() {
    let mut pids: StrMap<u32> = StrMap::new();
    pids.insert("a".to_string(), 1);
    assert_eq!(missing_ids(&list(&["a", "b", "c"]), &pids), list(&["b", "c"]));
    let mut told = StrMap::new();
    told.insert("b".to_string(), 2);
    told.insert("a".to_string(), 9);
    let singles = vec![
        SingleInspection { id: "b".to_string(), pids: Some(told) },
        SingleInspection { id: "c".to_string(), pids: None },
    ];
    assert_eq!(merge_singles(&mut pids, &singles), 1);
    assert_eq!(pids.get("a"), Some(&1));
    assert_eq!(pids.get("b"), Some(&2));
    assert!(!pids.contains_key("c"));

    let identity = RuntimeProcessIdentity { pid: 2, start_time_ticks: 9 };
    let captured = HashMap::from([(2, identity)]);
    let processes =
        inspect_running_container_processes(3, None, 1, &pids, &captured).ok().unwrap();
    assert_eq!(processes.len(), 1);
    assert_eq!(processes.get("b"), Some(&identity));
}

#[test]
fn inspection_fails_when_nothing_is_known() {
    let none = HashMap::new();
    let fail = |batch: Option<&str>, failed: usize| {
        inspect_running_container_processes(
            2,
            batch.map(|e| e.to_string()),
            failed,
            &StrMap::new(),
            &none,
        )
        .err()
    };
    assert_eq!(fail(Some("timed out"), 2).as_deref(), Some("timed out"));
    assert_eq!(
        fail(None, 2).as_deref(),
        Some("crictl inspect failed for all 2 container IDs")
    );
    assert_eq!(fail(Some("timed out"), 1), None);
}

#[test]
fn replies_of_crictl_are_read() {
    assert!(containers_in_reply(&CommandReply::NotInstalled, "").ok().unwrap().is_empty());
    let error = |reply: CommandReply| containers_in_reply(&reply, "EOF").err().unwrap();
    assert_eq!(error(CommandReply::NotRun("denied".into())), "crictl not available: denied");
    assert_eq!(error(CommandReply::Failed("boom".into())), "crictl failed: boom");
    assert_eq!(error(CommandReply::Output(b"{".to_vec())), "failed to parse crictl output: EOF");
    assert_eq!(
        error(CommandReply::Output(br#"{"containers":{}}"#.to_vec())),
        "failed to parse crictl output: EOF"
    );
    let output = br#"{"containers":[{"id":"a"}]}"#.to_vec();
    let listed = containers_in_reply(&CommandReply::Output(output), "").ok().unwrap();
    assert_eq!(listed[0].id.as_deref(), Some("a"));
    assert!(sandboxes_in_reply(&CommandReply::Failed("boom".into())).is_empty());
    assert_eq!(
        sandboxes_in_reply(&CommandReply::Output(br#"{"items":[{"id":"s"}]}"#.to_vec())).len(),
        1
    );
}

// ---------------------------------------------------------------------------
// Docker
// ---------------------------------------------------------------------------

#[test]
fn service_name_priority() {
    let mut labels = StrMap::new();
    assert_eq!(extract_service_name(&labels, "fallback"), "fallback");

    labels.insert("io.kubernetes.container.name".into(), "k8s-name".into());
    assert_eq!(extract_service_name(&labels, "fallback"), "k8s-name");

    labels.insert("com.docker.swarm.service.name".into(), "swarm-name".into());
    assert_eq!(extract_service_name(&labels, "fallback"), "swarm-name");

    labels.insert("com.docker.compose.service".into(), "compose-name".into());
    assert_eq!(extract_service_name(&labels, "fallback"), "compose-name");
}

#[test]
fn env_filtering() {
    let env = list(&[
        "PATH=/usr/bin",
        "LOGPACER_SERVICE_NAME=myapp",
        "SECRET_KEY=abc123",
        "LOGPACER_DEBUG=true",
    ]);
    let filtered = filter_env(&env);
    assert_eq!(filtered.len(), 2);
    assert!(filtered.contains(&"LOGPACER_SERVICE_NAME=myapp".to_string()));
    assert!(filtered.contains(&"LOGPACER_DEBUG=true".to_string()));
}

#[test]
fn clean_container_name() {
    assert_eq!(clean_name("/mycontainer"), "mycontainer");
    assert_eq!(clean_name("noprefix"), "noprefix");
}

#[test]
fn env_var_is_the_only_explicit_opt_in() {
    let env = list(&["LOGPACER_SERVICE_NAME=api"]);
    assert_eq!(explicit_service_name_from_env(&env).as_deref(), Some("api"));

    let empty = list(&["LOGPACER_SERVICE_NAME="]);
    assert_eq!(explicit_service_name_from_env(&empty), None);

    let no_env = list(&["LOGPACER_DEBUG=true"]);
    assert_eq!(explicit_service_name_from_env(&no_env), None);
}

#[test]
fn docker_connection_prefers_docker_host_when_set() {
    let target = resolve_docker_connection_target(
        Some("unix:///tmp/docker.sock"),
        Some("unix:///tmp/podman.sock"),
        Some("unix:///tmp/context.sock"),
        Some(PLATFORM_DEFAULT_DOCKER_HOST),
    );

    assert_eq!(target, Some(DockerConnectionTarget::Environment("DOCKER_HOST")));
}

#[test]
fn docker_connection_uses_container_host_before_context() {
    let target = resolve_docker_connection_target(
        None,
        Some("unix:///tmp/podman.sock"),
        Some("unix:///tmp/context.sock"),
        Some(PLATFORM_DEFAULT_DOCKER_HOST),
    );

    assert_eq!(target, Some(DockerConnectionTarget::Host("unix:///tmp/podman.sock".into())));
}

#[test]
fn docker_connection_uses_docker_context_before_default() {
    let target = resolve_docker_connection_target(
        None,
        None,
        Some("unix:///tmp/context.sock"),
        Some(PLATFORM_DEFAULT_DOCKER_HOST),
    );

    assert_eq!(target, Some(DockerConnectionTarget::Host("unix:///tmp/context.sock".into())));
}

#[test]
fn docker_connection_returns_none_without_configured_endpoint() {
    let target = resolve_docker_connection_target(None, None, None, None);

    assert_eq!(target, None);
}

#[test]
fn parses_current_docker_context_host() {
    let config = r#"{"currentContext":"colima"}"#;
    let meta = r#"{
        "Name": "colima",
        "Endpoints": {
            "docker": {
                "Host": "unix:///Users/tester/.colima/default/docker.sock"
            }
        }
    }"#;

    assert_eq!(parse_current_context(config).as_deref(), Some("colima"));
    assert_eq!(
        docker_context_host_from_meta(meta, "colima").as_deref(),
        Some("unix:///Users/tester/.colima/default/docker.sock")
    );
    assert_eq!(docker_context_host_from_meta(meta, "desktop"), None);
}

#[test]
fn hosts_are_told_apart_by_their_scheme() {
    assert_eq!(host_kind("unix:///var/run/docker.sock"), HostKind::Socket);
    assert_eq!(host_kind("/var/run/docker.sock"), HostKind::Socket);
    assert_eq!(host_kind("ssh://10.0.0.1"), HostKind::Unsupported);
    assert_eq!(host_kind("tcp://10.0.0.1:2375"), HostKind::Http);
}

#[test]
fn a_summary_and_its_detail_make_a_container() {
    let mut labels = StrMap::new();
    labels.insert("com.docker.compose.service".to_string(), "web".to_string());
    let raw = DockerSummary {
        id: "0123456789abcdef".into(),
        names: list(&["/shop-web-1"]),
        image: Some("nginx:1".into()),
        state: Some("running".into()),
        labels,
    };
    assert!(is_running(&raw));
    let detail = DockerDetail {
        log_path: "/l.log".into(),
        env: list(&["PATH=/bin", "LOGPACER_SERVICE_NAME=api"]),
    };
    let c = docker_container(&raw, Some(&detail));
    assert_eq!(c.name, "shop-web-1");
    assert_eq!(c.service_name, "api");
    assert!(c.service_name_explicit);
    assert_eq!(c.env, list(&["LOGPACER_SERVICE_NAME=api"]));
    assert_eq!(c.log_path, "/l.log");
    let bare = docker_container(&raw, None);
    assert_eq!(bare.service_name, "web");
    assert!(!bare.service_name_explicit);
    assert_eq!(bare.log_path, "");
}

#[test]
fn the_current_context_is_looked_up() {
    let meta = |name: &str, host: &str| {
        Some(format!(r#"{{"Name":"{name}","Endpoints":{{"docker":{{"Host":"{host}"}}}}}}"#))
    };
    let metas = vec![meta("desktop", "unix:///d.sock"), meta("colima", "unix:///c.sock")];
    let host = |config: &str, metas: &Vec<Option<String>>| {
        read_current_docker_context_host(Some(config), metas)
    };
    let colima = r#"{"currentContext":"colima"}"#;
    assert_eq!(host(colima, &metas).as_deref(), Some("unix:///c.sock"));
    assert_eq!(host(r#"{"currentContext":"default"}"#, &metas), None);
    assert_eq!(host(colima, &vec![None, meta("colima", "unix:///c.sock")]), None);
    assert_eq!(read_current_docker_context_host(None, &metas), None);
    assert_eq!(default_docker_host(false, true), Some("unix:///var/run/docker.sock"));
    assert_eq!(default_docker_host(false, false), None);
    assert_eq!(default_docker_host(true, false), Some("npipe:////./pipe/docker_engine"));
}

#[test]
fn formats_are_settled_by_the_log() {
    let raw = |labels: StrMap<String>| DockerSummary {
        id: "a".into(),
        names: list(&["/a"]),
        image: None,
        state: Some("running".into()),
        labels,
    };
    let detail = DockerDetail { log_path: "/l.log".into(), env: vec![] };
    let json_lines: &[u8] = br#"{"log":"{\"a\":1}\n","stream":"stdout"}"#;
    let mut c = docker_container(&raw(StrMap::new()), Some(&detail));
    settle_log_format(&mut c, None);
    assert_eq!(c.log_format, "plain_text");
    settle_log_format(&mut c, Some(json_lines));
    assert_eq!(c.log_format, "ndjson");
    let mut labels = StrMap::new();
    labels.insert("log.format".to_string(), " JSON ".to_string());
    let mut c = docker_container(&raw(labels), Some(&detail));
    settle_log_format(&mut c, Some(b"plain"));
    assert_eq!(c.log_format, "json");
}

#[test]
fn records_may_be_written_as_arrays() {
    let listed = parse_crictl_output(
        br#"[[["a", "pod", ["web"], "img", null, {"k": "v"}], {"id": "b", "metadata": [null]}]]"#,
    )
    .unwrap();
    assert_eq!(listed.len(), 2);
    assert_eq!(listed[0].id.as_deref(), Some("a"));
    assert_eq!(listed[0].pod_sandbox_id.as_deref(), Some("pod"));
    assert_eq!(listed[0].name.as_deref(), Some("web"));
    assert_eq!(listed[0].image_ref.as_deref(), Some("img"));
    assert_eq!(listed[0].state, None);
    assert_eq!(listed[0].labels.get("k").map(|v| v.as_str()), Some("v"));
    assert_eq!(listed[1].name, None);

    let sandboxes =
        parse_crictl_pods_output(br#"{"items": [["s", ["ns", "pod", "uid"]]]}"#).unwrap();
    assert_eq!(sandboxes[0].id, "s");
    assert_eq!(sandboxes[0].namespace, "ns");
    assert_eq!(sandboxes[0].pod_name, "pod");
    assert_eq!(sandboxes[0].pod_uid, "uid");

    assert!(parse_crictl_output(b"[[[\"a\"]]]").is_none());
    assert!(parse_crictl_output(b"[]").is_none());
    assert!(parse_crictl_output(b"[null, null]").is_none());
    assert!(parse_crictl_pods_output(br#"{"items": [["s", ["ns"]]]}"#).is_none());

    assert_eq!(parse_current_context(r#"["colima"]"#).as_deref(), Some("colima"));
    assert_eq!(parse_current_context(r#"["colima", 1]"#), None);
    assert_eq!(
        docker_context_host_from_meta(r#"["c", {"docker": ["unix:///c.sock"]}]"#, "c").as_deref(),
        Some("unix:///c.sock")
    );
    assert_eq!(docker_context_host_from_meta(r#"["c"]"#, "c"), None);
}

#[test]
fn a_field_written_twice_spoils_the_record() {
    assert!(parse_crictl_output(br#"{"containers":[{"id":"a","id":"b"}]}"#).is_none());
    assert!(parse_crictl_output(br#"{"containers":[],"containers":[]}"#).is_none());
    assert!(parse_crictl_output(br#"{"containers":[{"metadata":{"name":"a","name":"b"}}]}"#)
        .is_none());
    assert!(parse_crictl_output(br#"{"containers":[{"id":"a","i\u0064":"b"}]}"#).is_none());
    assert!(parse_crictl_pods_output(br#"{"items":[{"metadata":{"uid":"a","uid":"a"}}]}"#)
        .is_none());
    assert_eq!(parse_current_context(r#"{"currentContext":"a","currentContext":"a"}"#), None);

    let listed =
        parse_crictl_output(br#"{"x":1,"x":2,"containers":[{"labels":{"k":"v","k":"w"}}]}"#)
            .unwrap();
    assert_eq!(listed[0].labels.get("k").map(|v| v.as_str()), Some("w"));
    let twice = r#"{"Name":"c","Endpoints":{"docker":{"Host":"a"},"docker":{"Host":"b"}}}"#;
    assert_eq!(docker_context_host_from_meta(twice, "c").as_deref(), Some("b"));
}

#[test]
fn members_that_nobody_reads_are_passed_over() {
    let deep = format!("{}{}", "[".repeat(1000), "]".repeat(1000));
    let text = format!(
        " {{\"a\": 1e999, \"b\": {deep}, \"containers\" : [ {{\"c\": {deep}, \"id\": \"x\"}} ] }}\n"
    );
    let listed = parse_crictl_output(text.as_bytes()).unwrap();
    assert_eq!(listed.len(), 1);
    assert_eq!(listed[0].id.as_deref(), Some("x"));
    let listed = parse_crictl_output(b"{\"a\":\"\xff\",\"containers\":[{\"id\":\"x\"}]}").unwrap();
    assert_eq!(listed[0].id.as_deref(), Some("x"));
    let listed = parse_crictl_output(br#"{"containers":[{"a":"\ud800","id":"x"}]}"#).unwrap();
    assert_eq!(listed[0].id.as_deref(), Some("x"));
    assert!(parse_crictl_output(br#"{"containers":[{"id":"\ud800"}]}"#).is_none());
}

#[test]
fn faulty_listings_are_refused() {
    for text in [
        "",
        "null",
        "\"containers\"",
        "{\"containers\":[]",
        "{\"containers\":[]}}",
        "{\"containers\":[],}",
        "{,\"containers\":[]}",
        "{\"containers\":[{}{}]}",
        "{\"containers\":[{},]}",
        "{\"containers\" []}",
        "{containers:[]}",
        "{\"containers\":[{}] \"x\":1}",
        "{\"containers\":[{}],\"x\":}",
        "{\"containers\":[{}],\"x\":1x}",
        "{\"containers\":[null]}",
        "{\"containers\":[{\"id\":5}]}",
        "{\"containers\":[{\"labels\":{\"k\":null}}]}",
    ] {
        assert!(parse_crictl_output(text.as_bytes()).is_none(), "{text}");
    }
    assert!(parse_crictl_output(b"{}").unwrap().is_empty());
    assert!(parse_crictl_output(b"{\"containers\":null}").unwrap().is_empty());
}

#[test]
fn outlines_hold_what_can_be_read() {
    assert!(matches!(outline(b" null ", 0), Outline::Null));
    assert!(matches!(outline(b"12", 1), Outline::Other));
    assert!(matches!(outline(b"[]", 0), Outline::Other));
    assert!(matches!(outline(b"[1] 2", 1), Outline::Other));
    match outline(b"{\"a\": [\"b\"], \"a\": \"c\"}", 1) {
        Outline::Members(members) => {
            assert_eq!(members.len(), 2);
            assert_eq!(members[0].0, "a");
            assert!(matches!(members[0].1, Outline::Other));
            assert!(matches!(&members[1].1, Outline::Text(t) if t == "c"));
        }
        _ => panic!("expected members"),
    }
    let container = Outline::Members(vec![("id".to_string(), Outline::Text("a".to_string()))]);
    let listing =
        Outline::Members(vec![("containers".to_string(), Outline::Items(vec![container]))]);
    let listed = read_crictl_containers(&listing).unwrap();
    assert_eq!(listed[0].id.as_deref(), Some("a"));
}
