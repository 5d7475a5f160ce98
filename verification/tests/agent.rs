use edgepacer::agent::{
    asks_for_resync, begin, extract_log_extensions, extract_scan_paths, report_inventory,
    report_package_lane, report_snapshot_data, reports_packages, run,
    runtime_process_discovery_enabled, Cycle, InventoryReport, Lane, LaneReply, PackageOutcome,
    PackageReply, ScanEffect, Step, StoppedWorkload,
};
use edgepacer::census_entries::{
    container_census_entry, map_object, service_census_entry, stamp_full_report, workload_instances,
};
use edgepacer::config::UnifiedConfig;
use edgepacer::discovery::census::Census;
use edgepacer::discovery::container::{Container, RuntimeProcessIdentity};
use edgepacer::discovery::event_log::EventLogChannel;
use edgepacer::discovery::files::LogFile;
use edgepacer::discovery::ports::ListeningPort;
use edgepacer::discovery::processes::Process;
use edgepacer::discovery::systemd::SystemdService;
use edgepacer::json::Json;
use edgepacer::strmap::StrMap;

fn unified(text: &str) -> UnifiedConfig {
    UnifiedConfig::new(Json::from_slice(text.as_bytes()).unwrap(), "etag".into())
}

fn written(value: &Json) -> String {
    String::from_utf8(value.to_vec()).unwrap()
}

fn text_at<'a>(value: &'a Json, path: &[&str]) -> Option<&'a str> {
    let mut v = value;
    for key in path {
        v = v.get(key)?;
    }
    v.as_str()
}

fn k8s_statefulset_container() -> Container {
    Container {
        id: "default/postgres-0/db".into(),
        name: "postgres-0-db".into(),
        service_name: "postgres".into(),
        service_name_explicit: true,
        image: "postgres:17".into(),
        state: "running".into(),
        labels: StrMap::new(),
        env: vec![],
        runtime: "kubernetes".into(),
        log_path: "/var/log/pods/default_postgres-0_uid/db".into(),
        log_format: "plain_text".into(),
        pod_uid: "pod-uid-xyz".into(),
        pod_name: "postgres-0".into(),
        namespace: "default".into(),
        node_name: "node-1".into(),
        deployment: "postgres".into(),
        workload_kind: "statefulset".into(),
        container_id: "containerd://abc123".into(),
        container_name: "db".into(),
        runtime_process: None,
    }
}

fn plain_container(id: &str) -> Container {
    Container {
        id: id.into(),
        name: id.into(),
        service_name: String::new(),
        service_name_explicit: false,
        image: "nginx:latest".into(),
        state: "running".into(),
        labels: StrMap::new(),
        env: vec![],
        runtime: "docker".into(),
        log_path: String::new(),
        log_format: "plain_text".into(),
        pod_uid: String::new(),
        pod_name: String::new(),
        namespace: String::new(),
        node_name: String::new(),
        deployment: String::new(),
        workload_kind: String::new(),
        container_id: id.into(),
        container_name: String::new(),
        runtime_process: None,
    }
}

fn compose_replica(ordinal: &str) -> Container {
    let mut c = plain_container(&format!("shop-web-{ordinal}"));
    c.labels.insert("com.docker.compose.project".into(), "shop".into());
    c.labels.insert("com.docker.compose.service".into(), "web".into());
    c.labels.insert("com.docker.compose.container-number".into(), ordinal.into());
    c.log_path = format!("/var/lib/docker/containers/{ordinal}/{ordinal}-json.log");
    c
}

fn kamal_replica(role: &str) -> Container {
    let mut c = plain_container(&format!("logpacer-{role}-prod-1a2b3c4"));
    c.labels.insert("service".into(), "logpacer".into());
    c.labels.insert("role".into(), role.into());
    c.labels.insert("destination".into(), "prod".into());
    c
}

fn k8s_deployment_pod(pod: &str) -> Container {
    let mut c = plain_container(&format!("prod/{pod}/api"));
    c.name = format!("{pod}-api");
    c.service_name = "api".into();
    c.image = "ghcr.io/logpacer/api:v1.4.3".into();
    c.runtime = "kubernetes".into();
    c.log_path = format!("/var/log/pods/prod_{pod}_uid/api");
    c.pod_uid = format!("{pod}-uid");
    c.pod_name = pod.into();
    c.namespace = "prod".into();
    c.node_name = "node-1".into();
    c.deployment = "api".into();
    c.workload_kind = "deployment".into();
    c.container_id = format!("containerd://{pod}");
    c.container_name = "api".into();
    c
}

fn report(new_containers: Vec<Container>) -> InventoryReport {
    InventoryReport {
        new_containers,
        changed_containers: vec![],
        stopped_containers: vec![],
        new_files: vec![],
        new_services: vec![],
        stopped_services: vec![],
    }
}

#[test]
fn runtime_process_discovery_requires_runtime_ebpf_enablement() {
    assert!(!runtime_process_discovery_enabled(None, true));
    let disabled = unified(r#"{ "ebpf": { "enabled": false } }"#);
    assert!(!runtime_process_discovery_enabled(Some(&disabled), true));
    let enabled = unified(r#"{ "ebpf": { "enabled": true } }"#);
    assert!(runtime_process_discovery_enabled(Some(&enabled), true));
    assert!(!runtime_process_discovery_enabled(Some(&enabled), false));
}

#[test]
fn package_lane_success_commits_baseline() {
    assert_eq!(
        report_package_lane(PackageReply::Accepted { full_resync_required: None }),
        PackageOutcome::Commit
    );
    assert_eq!(
        report_package_lane(PackageReply::Accepted { full_resync_required: Some(false) }),
        PackageOutcome::Commit
    );
}

#[test]
fn package_lane_full_resync_response_keeps_full_snapshot_pending() {
    assert_eq!(
        report_package_lane(PackageReply::Accepted { full_resync_required: Some(true) }),
        PackageOutcome::Resync
    );
    assert_eq!(report_package_lane(PackageReply::Failed), PackageOutcome::Rollback);
    assert_eq!(report_package_lane(PackageReply::NotEncoded), PackageOutcome::Rollback);
}

#[test]
fn census_entries_carry_stable_identity_and_never_volatile_handles() {
    let mut c = k8s_statefulset_container();
    c.log_format = "ndjson".into();
    c.runtime_process = Some(RuntimeProcessIdentity { pid: 4242, start_time_ticks: 1234 });

    for entry in [service_census_entry(&c), container_census_entry(&c, &vec![])] {
        assert!(entry.is_object(), "census entry is a JSON object");
        assert_eq!(text_at(&entry, &["stable_instance_id"]), Some("default/postgres/db/0"));
        assert!(entry.get("container_id").is_none(), "container_id must never be reported");
        assert!(entry.get("pod_id").is_none(), "pod_uid must never be reported");
        assert!(entry.get("pod_name").is_none(), "pod_name must never be reported");
        assert!(
            entry.get("runtime_process").is_none(),
            "runtime process identity must never be reported"
        );
        assert_eq!(text_at(&entry, &["format"]), Some("ndjson"));
    }
}

#[test]
fn census_entries_carry_identifier_atoms() {
    let c = k8s_statefulset_container();

    for entry in [service_census_entry(&c), container_census_entry(&c, &vec![])] {
        assert_eq!(text_at(&entry, &["identifiers", "service_name"]), Some("postgres"));
        assert_eq!(text_at(&entry, &["identifiers", "k8s.namespace"]), Some("default"));
        assert_eq!(text_at(&entry, &["identifiers", "k8s.workload"]), Some("postgres"));
        assert_eq!(text_at(&entry, &["identifiers", "image.repo"]), Some("postgres"));
        let atoms = entry.get("identifiers").unwrap().as_object().unwrap();
        assert!(atoms.iter().all(|(k, _)| k != "container_id" && k != "pod_uid"));
    }
}

#[test]
fn screener_census_entry_lists_every_replica_in_active_instances() {
    let discovered = vec![compose_replica("2"), compose_replica("1"), compose_replica("3")];
    let entry =
        container_census_entry(&discovered[0], &workload_instances(&discovered[0], &discovered));

    assert_eq!(text_at(&entry, &["identifier"]), Some("shop/web"));
    let instances = entry.get("active_instances").unwrap().as_array().unwrap();
    assert_eq!(instances.len(), 3);
    assert_eq!(
        instances
            .iter()
            .map(|i| text_at(i, &["stable_instance_id"]).unwrap())
            .collect::<Vec<_>>(),
        vec!["shop/web/1", "shop/web/2", "shop/web/3"]
    );

    assert_eq!(
        text_at(&instances[0], &["log_path"]),
        Some("/var/lib/docker/containers/1/1-json.log")
    );
    assert_eq!(text_at(&instances[0], &["identifiers", "compose.project"]), Some("shop"));
    assert_eq!(text_at(&instances[0], &["identifiers", "container.name"]), Some("shop-web-1"));
    assert_eq!(text_at(&instances[2], &["identifiers", "container.name"]), Some("shop-web-3"));
}

#[test]
fn active_instances_carry_role_varying_atoms() {
    let discovered = vec![kamal_replica("web"), kamal_replica("rpc")];
    let entry =
        container_census_entry(&discovered[0], &workload_instances(&discovered[0], &discovered));

    assert_eq!(text_at(&entry, &["identifier"]), Some("logpacer-prod"));
    let instances = entry.get("active_instances").unwrap().as_array().unwrap();
    assert_eq!(instances.len(), 2);
    assert_eq!(text_at(&instances[0], &["identifiers", "kamal.role"]), Some("rpc"));
    assert_eq!(text_at(&instances[1], &["identifiers", "kamal.role"]), Some("web"));
}

#[test]
fn what_exited_is_no_instance() {
    let mut gone = compose_replica("2");
    gone.state = "exited".into();
    let discovered = vec![compose_replica("1"), gone, plain_container("other")];
    let instances = workload_instances(&discovered[0], &discovered);
    assert_eq!(instances.len(), 1);
    assert_eq!(instances[0].name, "shop-web-1");
}

#[test]
fn non_explicit_k8s_workload_reports_once_on_the_containers_lane() {
    let discovered = vec![
        k8s_deployment_pod("api-7b4f9c8d5-aaaaa"),
        k8s_deployment_pod("api-7b4f9c8d5-bbbbb"),
    ];
    let bodies =
        report_inventory(&report(vec![k8s_deployment_pod("api-7b4f9c8d5-aaaaa")]), &discovered, false);

    assert_eq!(bodies.len(), 1);
    assert_eq!(bodies[0].lane, Lane::Containers);
    let containers = bodies[0].payload.get("containers").unwrap().as_array().unwrap();
    assert_eq!(containers.len(), 1, "replicas coarsen to one workload entry");

    let entry = &containers[0];
    assert_eq!(text_at(entry, &["identifier"]), Some("prod/api/api"));
    assert_eq!(text_at(entry, &["identifiers", "k8s.namespace"]), Some("prod"));
    assert_eq!(text_at(entry, &["identifiers", "k8s.workload"]), Some("api"));
    assert_eq!(text_at(entry, &["identifiers", "k8s.container"]), Some("api"));
    assert_eq!(text_at(entry, &["identifiers", "image.repo"]), Some("ghcr.io/logpacer/api"));
    let instances = entry.get("active_instances").unwrap().as_array().unwrap();
    assert_eq!(instances.len(), 2);
}

#[test]
fn explicit_k8s_container_still_reports_on_the_services_lane() {
    let discovered = vec![k8s_statefulset_container()];
    let requests = report_inventory(&report(vec![k8s_statefulset_container()]), &discovered, false);
    assert_eq!(requests.len(), 1);
    assert_eq!(requests[0].lane, Lane::Services);
}

#[test]
fn census_lanes_stamp_full_report_only_on_full_re_emits() {
    let mut service = plain_container("api-1");
    service.service_name = "api".into();
    service.service_name_explicit = true;
    let report = report(vec![plain_container("web-1"), service]);

    for full in [true, false] {
        let bodies = report_inventory(&report, &Vec::new(), full);
        assert_eq!(bodies.len(), 2);
        for body in &bodies {
            if full {
                assert_eq!(body.payload.get("full_report").unwrap().as_bool(), Some(true));
            } else {
                assert!(body.payload.get("full_report").is_none());
            }
        }
    }
}

#[test]
fn the_mark_stands_among_the_keys_in_order() {
    let payload = |text: &str| Json::from_slice(text.as_bytes()).unwrap();
    assert_eq!(
        written(&stamp_full_report(payload(r#"{"a":1,"z":2}"#), true)),
        r#"{"a":1,"full_report":true,"z":2}"#
    );
    assert_eq!(
        written(&stamp_full_report(payload(r#"{"full_report":false}"#), true)),
        r#"{"full_report":true}"#
    );
    assert_eq!(written(&stamp_full_report(payload("{}"), true)), r#"{"full_report":true}"#);
    assert_eq!(written(&stamp_full_report(payload("{}"), false)), "{}");
    assert_eq!(written(&stamp_full_report(Json::Null, true)), r#"{"full_report":true}"#);
    assert_eq!(written(&stamp_full_report(Json::Null, false)), "null");
}

#[test]
fn maps_are_written_in_the_order_of_their_keys() {
    let mut m = StrMap::new();
    m.insert("b".to_string(), "2".to_string());
    m.insert("a".to_string(), "1".to_string());
    assert_eq!(written(&map_object(&m)), r#"{"a":"1","b":"2"}"#);
}

#[test]
fn every_lane_gets_its_changes() {
    let mut report = report(vec![]);
    report.stopped_containers = vec![
        StoppedWorkload { identifier: "svc".into(), explicit_service: true },
        StoppedWorkload { identifier: "plain".into(), explicit_service: false },
    ];
    report.new_files = vec![LogFile {
        path: "/var/log/app.log".into(),
        size: 5,
        modified: "then".into(),
        readable: true,
        permissions: "100644".into(),
        format: "ndjson".into(),
        line_count: 2,
    }];
    report.new_services = vec![SystemdService {
        name: "nginx.service".into(),
        load_state: "loaded".into(),
        active_state: "active".into(),
        sub_state: "running".into(),
        description: "web".into(),
        service_name: "nginx".into(),
        main_pid: 7,
    }];
    report.stopped_services = vec!["old.service".into()];
    let bodies = report_inventory(&report, &Vec::new(), false);
    let lanes: Vec<Lane> = bodies.iter().map(|b| b.lane).collect();
    assert_eq!(lanes, vec![Lane::Services, Lane::Containers, Lane::Files, Lane::Journald]);
    assert_eq!(
        written(&bodies[0].payload),
        r#"{"services":[],"stopped_services":[{"identifier":"svc"}]}"#
    );
    assert_eq!(
        written(&bodies[1].payload),
        r#"{"containers":[],"stopped_containers":[{"identifier":"plain","stable_identifier":"plain"}]}"#
    );
    assert_eq!(
        written(&bodies[2].payload),
        r#"{"files":[{"format":"ndjson","identifier":"/var/log/app.log","line_count":2,"modified":"then","name":"app.log","path":"/var/log/app.log","permissions":"100644","size":5,"state":"active"}]}"#
    );
    assert_eq!(
        written(&bodies[3].payload),
        r#"{"stopped_units":[{"identifier":"old.service"}],"units":[{"active_state":"active","identifier":"nginx.service","load_state":"loaded","sub_state":"running","unit_name":"nginx.service"}]}"#
    );
}

#[test]
fn snapshots_hold_what_the_scan_found() {
    let mut census = Census::default();
    assert!(report_snapshot_data(&census).is_empty());
    census.processes = vec![Process {
        pid: 1,
        user: "root".into(),
        cpu: "0.0".into(),
        mem: "0.0".into(),
        command: "init".into(),
    }];
    census.listening_ports = vec![ListeningPort {
        port: 80,
        protocol: "tcp".into(),
        process: "nginx".into(),
        pid: 7,
    }];
    census.event_log_channels =
        vec![EventLogChannel { channel: "System".into(), record_count: 3 }];
    let bodies = report_snapshot_data(&census);
    let texts: Vec<String> = bodies.iter().map(|b| written(&b.payload)).collect();
    assert_eq!(
        texts,
        vec![
            r#"{"processes":[{"command":"init","cpu":"0.0","mem":"0.0","pid":1,"user":"root"}]}"#,
            r#"{"listening_ports":[{"pid":7,"port":80,"process":"nginx","protocol":"tcp"}]}"#,
            r#"{"channels":[{"channel":"System","identifier":"System","record_count":3}]}"#,
        ]
    );
}

#[test]
fn scans_follow_the_configuration() {
    assert_eq!(extract_scan_paths(None, false), vec!["/var/log"]);
    assert_eq!(extract_scan_paths(None, true).len(), 3);
    assert_eq!(extract_log_extensions(None), vec!["log"]);
    let cfg = unified(
        r#"{"discovery": {"scan_paths": ["/srv/logs", 7], "log_extensions": ["log", "txt"]}}"#,
    );
    assert_eq!(extract_scan_paths(Some(&cfg), false), vec!["/srv/logs"]);
    assert_eq!(extract_log_extensions(Some(&cfg)), vec!["log", "txt"]);
    let empty = unified(r#"{"discovery": {"scan_paths": [], "log_extensions": "log"}}"#);
    assert_eq!(extract_scan_paths(Some(&empty), false), vec!["/var/log"]);
    assert_eq!(extract_log_extensions(Some(&empty)), vec!["log"]);
}

#[test]
fn a_cycle_reports_every_lane_in_order() {
    let taken = LaneReply::Accepted { full_resync_required: None };
    let cycle = Cycle { changes: 2, snapshots: 1, packages: true };
    let (step, effect) = begin(cycle);
    assert_eq!((step, effect), (Step::SendChange(0), ScanEffect::Nothing));
    let (step, effect) = run(cycle, step, taken);
    assert_eq!((step, effect), (Step::SendChange(1), ScanEffect::Nothing));
    let (step, effect) = run(cycle, step, taken);
    assert_eq!((step, effect), (Step::SendSnapshot(0), ScanEffect::Commit));
    let (step, effect) = run(cycle, step, LaneReply::Failed);
    assert_eq!((step, effect), (Step::SendPackages, ScanEffect::Nothing));
    assert_eq!(run(cycle, step, taken), (Step::Rest, ScanEffect::Nothing));
}

#[test]
fn a_failed_change_undoes_the_scan() {
    let cycle = Cycle { changes: 2, snapshots: 1, packages: false };
    assert_eq!(
        run(cycle, Step::SendChange(0), LaneReply::Failed),
        (Step::SendSnapshot(0), ScanEffect::Rollback)
    );
    let quiet = Cycle { changes: 0, snapshots: 0, packages: false };
    assert_eq!(begin(quiet), (Step::Rest, ScanEffect::Commit));
    assert!(asks_for_resync(LaneReply::Accepted { full_resync_required: Some(true) }));
    assert!(!asks_for_resync(LaneReply::Accepted { full_resync_required: Some(false) }));
    assert!(!asks_for_resync(LaneReply::Failed));
    let mut census = Census::default();
    assert!(reports_packages(&census));
    census.errors.insert("packages".to_string(), "no rpm".to_string());
    assert!(!reports_packages(&census));
}

#[test]
fn runtime_process_identity_never_crosses_the_census_wire() {
    let mut container = plain_container("my-nginx");
    container.runtime_process = Some(RuntimeProcessIdentity { pid: 4242, start_time_ticks: 1234 });
    let discovered = vec![container.copy()];

    let bodies = report_inventory(&report(vec![container]), &discovered, false);

    let containers = bodies[0].payload.get("containers").unwrap().as_array().unwrap();
    assert_eq!(text_at(&containers[0], &["container_name"]), Some("my-nginx"));
    assert!(containers[0].get("runtime_process").is_none());
    assert!(!written(&bodies[0].payload).contains("4242"));
}
