use edgepacer::discovery::cache::{
    infer_loggable_type, CollectMatch, Confidence, DiscoveryCache, MatchVia, ResolvedAccess,
};
use edgepacer::discovery::census::{assemble_census, BackendResults, Census};
use edgepacer::discovery::container::{AccessMethod, Container, LocalFiles};
use edgepacer::discovery::event_log::EventLogChannel;
use edgepacer::discovery::files::LogFile;
use edgepacer::discovery::systemd::SystemdService;
use edgepacer::strmap::StrMap;

fn none() -> LocalFiles {
    LocalFiles { paths: Vec::new() }
}

fn docker_container(name: &str, log_path: &str) -> Container {
    container_with_id("abc123def456", name, log_path)
}

fn container_with_id(id: &str, name: &str, log_path: &str) -> Container {
    Container {
        id: id.into(),
        name: name.into(),
        service_name: String::new(),
        service_name_explicit: false,
        image: "nginx:latest".into(),
        state: "running".into(),
        labels: StrMap::new(),
        env: vec![],
        runtime: "docker".into(),
        log_path: log_path.into(),
        log_format: "plain_text".into(),
        pod_uid: String::new(),
        pod_name: String::new(),
        namespace: String::new(),
        node_name: String::new(),
        deployment: String::new(),
        workload_kind: String::new(),
        container_id: id.into(),
        container_name: String::new(),
        runtime_process: None,
    }
}

fn compose_replica(id: &str, project: &str, service: &str, ordinal: &str) -> Container {
    let mut c = container_with_id(id, &format!("{project}-{service}-{ordinal}"), "");
    c.labels.insert("com.docker.compose.project".into(), project.into());
    c.labels.insert("com.docker.compose.service".into(), service.into());
    c.labels.insert("com.docker.compose.container-number".into(), ordinal.into());
    c
}

fn cache_with(containers: Vec<Container>) -> DiscoveryCache {
    let census = Census { containers, ..Default::default() };
    let mut cache = DiscoveryCache::new();
    cache.update_all(&census);
    cache
}

fn kubernetes_container(service_name_explicit: bool) -> Container {
    Container {
        id: "default/test-pod/app".into(),
        name: "test-pod-app".into(),
        service_name: "checkout".into(),
        service_name_explicit,
        image: "nginx:latest".into(),
        state: "running".into(),
        labels: StrMap::new(),
        env: vec![],
        runtime: "kubernetes".into(),
        log_path: "/var/log/pods/default_test-pod_uid/app".into(),
        log_format: "plain_text".into(),
        pod_uid: "uid".into(),
        pod_name: "test-pod".into(),
        namespace: "default".into(),
        node_name: "node-1".into(),
        deployment: "checkout".into(),
        workload_kind: "deployment".into(),
        container_id: "containerd://abc123def456".into(),
        container_name: "app".into(),
        runtime_process: None,
    }
}

fn log_file(path: &str) -> LogFile {
    LogFile {
        path: path.into(),
        size: 100,
        modified: String::new(),
        readable: true,
        permissions: "644".into(),
        format: "plain_text".into(),
        line_count: 10,
    }
}

fn matched(m: CollectMatch) -> ResolvedAccess {
    match m {
        CollectMatch::Matched(access) => access,
        other => panic!("expected Matched, got {other:?}"),
    }
}

#[test]
fn epoch_advances_on_every_applied_scan() {
    let mut cache = DiscoveryCache::new();
    assert_eq!(cache.epoch(), 0, "no scan applied yet");

    cache.update_all(&Census::default());
    assert_eq!(cache.epoch(), 1);

    cache.update_all(&Census::default());
    assert_eq!(cache.epoch(), 2);
}

#[test]
fn authorization_snapshot_requires_initialized_complete_container_discovery() {
    let mut cache = DiscoveryCache::new();
    assert!(cache.complete_container_snapshot().is_err());

    let mut partial = Census::default();
    partial.errors.insert("docker".to_string(), "daemon unavailable".to_string());
    cache.update_all(&partial);
    assert_eq!(
        cache.complete_container_snapshot().err().unwrap(),
        "container discovery failed: docker"
    );

    cache.update_all(&Census::default());
    let snapshot = cache.complete_container_snapshot().ok().unwrap();
    assert_eq!(snapshot.epoch, 2);
    assert!(snapshot.containers.is_empty());

    cache.update_all(&Census::default());
    assert_eq!(
        cache.verify_complete_container_epoch(snapshot.epoch).unwrap_err(),
        "container discovery changed during listener snapshot (2 -> 3)"
    );
}

#[test]
fn resolves_file_by_path() {
    let mut cache = DiscoveryCache::new();
    let mut census = Census::default();
    census.log_files.push(log_file("/var/log/app.log"));
    cache.update_all(&census);

    let (method, loc) = cache.resolve_access_method("/var/log/app.log", "file", &none()).unwrap();
    assert_eq!(method, AccessMethod::File);
    assert_eq!(loc, "/var/log/app.log");
}

#[test]
fn resolves_docker_json_file_when_log_path_present() {
    let log_path = "/tmp/logs/container.log";
    let cache = cache_with(vec![docker_container("my-nginx", log_path)]);
    let files = LocalFiles { paths: vec![log_path.to_string()] };

    let (method, loc) = cache.resolve_access_method("my-nginx", "container", &files).unwrap();
    assert_eq!(method, AccessMethod::DockerJsonFile);
    assert_eq!(loc, log_path);
}

#[test]
fn resolves_docker_api_without_log_path() {
    let cache = cache_with(vec![docker_container("my-nginx", "")]);

    let (method, loc) = cache.resolve_access_method("my-nginx", "container", &none()).unwrap();
    assert_eq!(method, AccessMethod::DockerApi);
    assert_eq!(loc, "abc123def456");
}

#[test]
fn resolves_docker_api_when_reported_log_path_is_not_local() {
    let cache = cache_with(vec![docker_container("my-nginx", "/var/lib/docker/missing.log")]);

    let (method, loc) = cache.resolve_access_method("my-nginx", "container", &none()).unwrap();
    assert_eq!(method, AccessMethod::DockerApi);
    assert_eq!(loc, "abc123def456");
}

#[test]
fn resolves_non_explicit_kubernetes_container() {
    let cache = cache_with(vec![kubernetes_container(false)]);

    let (method, loc) =
        cache.resolve_access_method("default/checkout/app", "container", &none()).unwrap();
    assert_eq!(method, AccessMethod::Kubernetes);
    assert_eq!(loc, "/var/log/pods/default_test-pod_uid/app");
    assert_eq!(cache.stats().containers, 1);
}

#[test]
fn resolves_explicit_kubernetes_container() {
    let cache = cache_with(vec![kubernetes_container(true)]);

    let (method, loc) =
        cache.resolve_access_method("default/checkout/app", "container", &none()).unwrap();

    assert_eq!(method, AccessMethod::Kubernetes);
    assert_eq!(loc, "/var/log/pods/default_test-pod_uid/app");
    assert_eq!(cache.stats().containers, 1);
}

#[test]
fn infer_loggable_type_maps_strategies() {
    assert_eq!(infer_loggable_type("file_path"), "file");
    assert_eq!(infer_loggable_type("stable_id"), "container");
    assert_eq!(infer_loggable_type("systemd_unit"), "systemd_service");
}

#[test]
fn file_match_identity_is_the_path_and_strong() {
    let mut census = Census::default();
    census.log_files.push(log_file("/var/log/app.log"));
    let mut cache = DiscoveryCache::new();
    cache.update_all(&census);

    let access = matched(cache.resolve("/var/log/app.log", "file", &none()));
    assert_eq!(access.matched_via, MatchVia::FilePath);
    assert_eq!(access.confidence(), Confidence::Strong);
    assert_eq!(access.stable_identity, "/var/log/app.log");
    assert_eq!(access.access_locator, "/var/log/app.log");
}

#[test]
fn missing_file_is_not_found() {
    let cache = DiscoveryCache::new();
    assert_eq!(cache.resolve("/no/such.log", "file", &none()), CollectMatch::NotFound);
}

#[test]
fn windows_service_inventory_does_not_resolve_to_journald() {
    let mut census = Census::default();
    census.systemd_services.push(SystemdService {
        name: "EventLog".into(),
        load_state: "installed".into(),
        active_state: "running".into(),
        sub_state: "win32".into(),
        description: "Windows Event Log".into(),
        service_name: "EventLog".into(),
        main_pid: 2112,
    });
    let mut cache = DiscoveryCache::new();
    cache.update_all(&census);

    assert_eq!(cache.stats().systemd_services, 1);
    assert_eq!(cache.resolve("EventLog", "systemd_service", &none()), CollectMatch::NotFound);
}

#[test]
fn systemd_units_resolve_to_journald() {
    let mut census = Census::default();
    census.systemd_services.push(SystemdService {
        name: "nginx.service".into(),
        load_state: "loaded".into(),
        active_state: "active".into(),
        sub_state: "running".into(),
        description: "web".into(),
        service_name: "nginx".into(),
        main_pid: 12,
    });
    let mut cache = DiscoveryCache::new();
    cache.update_all(&census);
    for id in ["nginx.service", "nginx"] {
        let access = matched(cache.resolve(id, "systemd_service", &none()));
        assert_eq!(access.access_method, AccessMethod::Journald);
        assert_eq!(access.matched_via, MatchVia::SystemdUnit);
        assert_eq!(access.access_locator, "nginx.service");
    }
}

#[test]
fn resolves_discovered_event_log_channel_by_name() {
    let mut census = Census::default();
    census
        .event_log_channels
        .push(EventLogChannel { channel: "Application".into(), record_count: 1234 });
    let mut cache = DiscoveryCache::new();
    cache.update_all(&census);

    let access = matched(cache.resolve("Application", "windows_event_log", &none()));
    assert_eq!(access.access_method, AccessMethod::WindowsEventLog);
    assert_eq!(access.matched_via, MatchVia::WindowsEventLog);
    assert_eq!(access.confidence(), Confidence::Strong);
    assert_eq!(access.access_locator, "Application");

    let (method, loc) = cache.resolve_access_method("Application", "", &none()).unwrap();
    assert_eq!(method, AccessMethod::WindowsEventLog);
    assert_eq!(loc, "Application");

    assert_eq!(
        cache.resolve("Microsoft-Windows-Nope/Operational", "windows_event_log", &none()),
        CollectMatch::NotFound
    );
    assert!(cache.resolve_access_method("Nope", "", &none()).is_none());
    assert_eq!(cache.stats().event_log_channels, 1);
}

#[test]
fn explicit_service_name_match_is_explicit_confidence() {
    let mut c = docker_container("web", "");
    c.service_name = "billing".into();
    c.service_name_explicit = true;
    let cache = cache_with(vec![c]);

    let access = matched(cache.resolve("billing", "container", &none()));
    assert_eq!(access.matched_via, MatchVia::ServiceName);
    assert_eq!(access.confidence(), Confidence::Explicit);
}

#[test]
fn standalone_container_name_is_its_stable_id() {
    let cache = cache_with(vec![docker_container("my-nginx", "")]);
    let access = matched(cache.resolve("my-nginx", "container", &none()));
    assert_eq!(access.matched_via, MatchVia::StableId);
    assert_eq!(access.confidence(), Confidence::Explicit);
    assert_eq!(access.stable_identity, "my-nginx");
}

#[test]
fn container_name_match_is_strong_when_distinct_from_stable_id() {
    let mut c = docker_container("myapp-web-1", "");
    c.labels.insert("com.docker.compose.project".into(), "myapp".into());
    c.labels.insert("com.docker.compose.service".into(), "web".into());
    let cache = cache_with(vec![c]);

    let access = matched(cache.resolve("myapp-web-1", "container", &none()));
    assert_eq!(access.matched_via, MatchVia::ContainerName);
    assert_eq!(access.confidence(), Confidence::Strong);
    assert_eq!(access.stable_identity, "myapp/web");
}

#[test]
fn weak_id_prefix_single_match_is_weak() {
    let cache = cache_with(vec![container_with_id("abc123def456aa", "svc", "")]);
    let access = matched(cache.resolve("abc123def456", "container", &none()));
    assert_eq!(access.matched_via, MatchVia::ContainerId);
    assert_eq!(access.confidence(), Confidence::Weak);
}

#[test]
fn ambiguous_id_prefix_refuses_to_pick() {
    let cache = cache_with(vec![
        container_with_id("abc123def456aa", "svc-a", ""),
        container_with_id("abc123def456bb", "svc-b", ""),
    ]);
    assert_eq!(
        cache.resolve("abc123def456zz", "container", &none()),
        CollectMatch::Ambiguous { candidates: 2 }
    );
}

#[test]
fn container_resolves_by_stable_id_across_id_and_argv_drift() {
    let compose = |id: &str, locator: &str| {
        let mut c = container_with_id(id, "shop-web-1", locator);
        c.labels.insert("com.docker.compose.project".into(), "shop".into());
        c.labels.insert("com.docker.compose.service".into(), "web".into());
        c
    };

    let before = matched(
        cache_with(vec![compose("id-old", "")]).resolve("shop/web", "container", &none()),
    );
    let after = matched(
        cache_with(vec![compose("id-new", "")]).resolve("shop/web", "container", &none()),
    );

    assert_eq!(before.matched_via, MatchVia::StableId);
    assert_eq!(after.matched_via, MatchVia::StableId);
    assert_eq!(before.stable_identity, "shop/web");
    assert_eq!(after.stable_identity, "shop/web");
    assert_eq!(before.access_locator, "id-old");
    assert_eq!(after.access_locator, "id-new");
}

#[test]
fn infer_loggable_type_maps_stable_instance_id_to_container() {
    assert_eq!(infer_loggable_type("stable_instance_id"), "container");
}

#[test]
fn resolves_compose_replicas_by_their_stable_instance_ids() {
    let cache = cache_with(vec![
        compose_replica("id-web-1", "shop", "web", "1"),
        compose_replica("id-web-2", "shop", "web", "2"),
    ]);

    let one = matched(cache.resolve("shop/web/1", "container", &none()));
    assert_eq!(one.matched_via, MatchVia::StableInstanceId);
    assert_eq!(one.confidence(), Confidence::Explicit);
    assert_eq!(one.stable_identity, "shop/web/1");
    assert_eq!(one.access_locator, "id-web-1");

    let two = matched(cache.resolve("shop/web/2", "container", &none()));
    assert_eq!(two.matched_via, MatchVia::StableInstanceId);
    assert_eq!(two.access_locator, "id-web-2");
}

#[test]
fn distinct_containers_dedups_aliases_in_stable_order() {
    let cache = cache_with(vec![
        compose_replica("id-web-2", "shop", "web", "2"),
        compose_replica("id-web-1", "shop", "web", "1"),
    ]);

    let ids: Vec<&str> = cache.distinct_containers().iter().map(|c| c.id.as_str()).collect();
    assert_eq!(ids, vec!["id-web-1", "id-web-2"]);
}

#[test]
fn stable_instance_id_resolves_across_container_id_drift() {
    let before = matched(
        cache_with(vec![compose_replica("id-old", "shop", "web", "1")]).resolve(
            "shop/web/1",
            "container",
            &none(),
        ),
    );
    let after = matched(
        cache_with(vec![compose_replica("id-new", "shop", "web", "1")]).resolve(
            "shop/web/1",
            "container",
            &none(),
        ),
    );

    assert_eq!(before.matched_via, MatchVia::StableInstanceId);
    assert_eq!(after.matched_via, MatchVia::StableInstanceId);
    assert_eq!(before.stable_identity, "shop/web/1");
    assert_eq!(after.stable_identity, "shop/web/1");
    assert_eq!(before.access_locator, "id-old");
    assert_eq!(after.access_locator, "id-new");
}

#[test]
fn a_failed_backend_leaves_the_others() {
    let census = assemble_census(
        "linux".into(),
        "x86_64".into(),
        "now".into(),
        BackendResults {
            docker: Ok(vec![docker_container("a", "")]),
            kubernetes: Ok(vec![kubernetes_container(true)]),
            cri: Err("no crictl".into()),
            files: Ok(vec![log_file("/var/log/app.log")]),
            systemd: Err("no systemctl".into()),
            event_log: Ok(vec![]),
            processes: Ok(vec![]),
            ports: Ok(vec![]),
            packages: Ok(vec![]),
        },
    );
    assert_eq!(census.containers.len(), 2);
    assert_eq!(census.containers[1].id, "default/test-pod/app");
    assert_eq!(census.errors.len(), 2);
    assert_eq!(census.errors.get("cri").unwrap(), "no crictl");
    assert_eq!(census.errors.get("systemd").unwrap(), "no systemctl");
    assert_eq!(census.log_files.len(), 1);
}

#[test]
fn both_resolutions_agree_where_containers_share_an_id() {
    let cache = cache_with(vec![
        container_with_id("abc123def456aa", "svc-a", ""),
        container_with_id("abc123def456aa", "svc-b", ""),
    ]);
    for identifier in ["abc123def456", "abc123def456aa", "svc-a", "svc-b", "svc-c"] {
        let quick = cache.resolve_access_method(identifier, "container", &none());
        match cache.resolve(identifier, "container", &none()) {
            CollectMatch::Matched(access) => {
                assert_eq!(quick, Some((access.access_method, access.access_locator)));
            }
            _ => assert_eq!(quick, None),
        }
    }
    let access = matched(cache.resolve("abc123def456", "container", &none()));
    assert_eq!(access.stable_identity, "svc-b");
    let distinct = cache.distinct_containers();
    assert_eq!(distinct.len(), 1);
    assert_eq!(distinct[0].name, "svc-b");
}
