use edgepacer::discovery::container::{
    image_repo, runtime_process_identity_from_stat, AccessMethod, Container, LocalFiles,
    RuntimeProcessIdentity,
};
use edgepacer::strmap::StrMap;

fn make_container(name: &str) -> Container {
    Container {
        id: "abc123".into(),
        name: name.into(),
        service_name: String::new(),
        service_name_explicit: false,
        image: "nginx:latest".into(),
        state: "running".into(),
        labels: StrMap::new(),
        env: vec![],
        runtime: "docker".into(),
        log_path: String::new(),
        log_format: "plain_text".into(),
        pod_uid: String::new(),
        pod_name: String::new(),
        namespace: String::new(),
        node_name: String::new(),
        deployment: String::new(),
        workload_kind: String::new(),
        container_id: "abc123".into(),
        container_name: String::new(),
        runtime_process: None,
    }
}

fn sorted(atoms: &StrMap<String>) -> Vec<(String, String)> {
    let mut v = atoms.entries.clone();
    v.sort();
    v
}

#[test]
fn proc_stat_identity_uses_pid_and_start_time_ticks() {
    let stat = "4242 (worker with ) parens) S 1 2 3 4 5 6 7 8 9 10 11 12 13 14 15 16 17 18 987654 20 21";

    assert_eq!(
        runtime_process_identity_from_stat(4242, stat),
        Some(RuntimeProcessIdentity { pid: 4242, start_time_ticks: 987654 })
    );
    assert_eq!(runtime_process_identity_from_stat(4243, stat), None);
}

#[test]
fn proc_stat_identity_rejects_incomplete_or_zero_birth_tokens() {
    assert_eq!(runtime_process_identity_from_stat(42, "42 (worker) S"), None);
    let zero = "42 (worker) S 1 2 3 4 5 6 7 8 9 10 11 12 13 14 15 16 17 18 0";
    assert_eq!(runtime_process_identity_from_stat(42, zero), None);
    assert_eq!(runtime_process_identity_from_stat(0, zero), None);
}

#[test]
fn runtime_process_identity_verifies_the_same_process_birth() {
    let stat = "42 (worker) S 1 2 3 4 5 6 7 8 9 10 11 12 13 14 15 16 17 18 77";
    let identity = runtime_process_identity_from_stat(42, stat).unwrap();
    let now = runtime_process_identity_from_stat(42, stat);

    assert_eq!(identity.pid(), 42);
    assert!(identity.is_current(now));
    assert!(!RuntimeProcessIdentity {
        start_time_ticks: identity.start_time_ticks.saturating_add(1),
        ..identity
    }
    .is_current(now));
    assert!(!identity.is_current(None));
}

#[test]
fn stable_id_standalone_docker() {
    let c = make_container("my-nginx");
    assert_eq!(c.stable_id(), "my-nginx");
}

#[test]
fn explicit_service_requires_the_env_var_flag() {
    let mut c = make_container("web");
    c.service_name = "web".into();
    assert!(c.has_service_name());
    assert!(
        !c.explicit_service(),
        "inferred service names are not consent — only LOGPACER_SERVICE_NAME is"
    );

    c.service_name_explicit = true;
    assert!(c.explicit_service());

    c.service_name = String::new();
    assert!(!c.explicit_service());
}

#[test]
fn stable_id_compose() {
    let mut c = make_container("myapp-web-1");
    c.labels.insert("com.docker.compose.project".into(), "myapp".into());
    c.labels.insert("com.docker.compose.service".into(), "web".into());
    assert_eq!(c.stable_id(), "myapp/web");
}

#[test]
fn stable_id_swarm() {
    let mut c = make_container("web.1.abc");
    c.labels.insert("com.docker.stack.namespace".into(), "production".into());
    c.labels.insert("com.docker.swarm.service.name".into(), "web".into());
    assert_eq!(c.stable_id(), "production/web");
}

#[test]
fn stable_id_kubernetes() {
    let mut c = make_container("nginx");
    c.namespace = "default".into();
    c.deployment = "nginx".into();
    assert_eq!(c.stable_id(), "default/nginx/nginx");
}

#[test]
fn stable_id_k8s_takes_priority_over_compose_labels() {
    let mut c = make_container("nginx");
    c.namespace = "prod".into();
    c.deployment = "api".into();
    c.labels.insert("com.docker.compose.service".into(), "web".into());
    assert_eq!(c.stable_id(), "prod/api/nginx");
}

#[test]
fn stable_instance_id_standalone_docker_is_the_name() {
    let c = make_container("my-nginx");
    assert_eq!(c.stable_instance_id(), "my-nginx");
}

#[test]
fn stable_instance_id_compose_appends_container_number_label() {
    let mut c = make_container("shop-web-2");
    c.labels.insert("com.docker.compose.project".into(), "shop".into());
    c.labels.insert("com.docker.compose.service".into(), "web".into());
    c.labels.insert("com.docker.compose.container-number".into(), "2".into());
    assert_eq!(c.stable_instance_id(), "shop/web/2");
    assert_eq!(c.stable_id(), "shop/web");
}

#[test]
fn stable_instance_id_compose_parses_ordinal_from_name_without_label() {
    let mut c = make_container("shop-web-3");
    c.labels.insert("com.docker.compose.project".into(), "shop".into());
    c.labels.insert("com.docker.compose.service".into(), "web".into());
    assert_eq!(c.stable_instance_id(), "shop/web/3");
}

#[test]
fn stable_instance_id_compose_without_ordinal_falls_back_to_workload() {
    let mut c = make_container("weird-name");
    c.labels.insert("com.docker.compose.project".into(), "shop".into());
    c.labels.insert("com.docker.compose.service".into(), "web".into());
    assert_eq!(c.stable_instance_id(), "shop/web");
}

#[test]
fn stable_instance_id_swarm_uses_task_slot() {
    let mut c = make_container("web.2.abc123xyz");
    c.labels.insert("com.docker.stack.namespace".into(), "production".into());
    c.labels.insert("com.docker.swarm.service.name".into(), "web".into());
    c.labels.insert("com.docker.swarm.task.name".into(), "web.2.abc123xyz".into());
    assert_eq!(c.stable_instance_id(), "production/web/2");
}

#[test]
fn stable_instance_id_statefulset_uses_pod_ordinal_per_container() {
    let mut db = make_container("postgres-0-db");
    db.runtime = "kubernetes".into();
    db.namespace = "default".into();
    db.deployment = "postgres".into();
    db.workload_kind = "statefulset".into();
    db.container_name = "db".into();
    db.pod_name = "postgres-0".into();
    assert_eq!(db.stable_instance_id(), "default/postgres/db/0");

    let mut metrics = db.copy();
    metrics.container_name = "metrics".into();
    metrics.name = "postgres-0-metrics".into();
    assert_eq!(metrics.stable_instance_id(), "default/postgres/metrics/0");
    assert_ne!(db.stable_instance_id(), metrics.stable_instance_id());
}

#[test]
fn stable_instance_id_daemonset_uses_node_name() {
    let mut c = make_container("fluentbit-abc");
    c.runtime = "kubernetes".into();
    c.namespace = "logging".into();
    c.deployment = "fluentbit".into();
    c.workload_kind = "daemonset".into();
    c.container_name = "agent".into();
    c.pod_name = "fluentbit-abc".into();
    c.node_name = "node-7".into();
    assert_eq!(c.stable_instance_id(), "logging/fluentbit/agent/node-7");
}

#[test]
fn stable_instance_id_deployment_is_fungible_workload_identity() {
    let mut c = make_container("api-7b4f9c8d5-xyz");
    c.runtime = "kubernetes".into();
    c.namespace = "prod".into();
    c.deployment = "api".into();
    c.workload_kind = "deployment".into();
    c.container_name = "api".into();
    c.pod_name = "api-7b4f9c8d5-xyz".into();
    assert_eq!(c.stable_instance_id(), "prod/api/api");
    assert_eq!(c.stable_instance_id(), c.stable_id());
}

fn make_kamal_container(role: &str, name: &str) -> Container {
    let mut c = make_container(name);
    c.labels.insert("service".into(), "logpacer".into());
    c.labels.insert("role".into(), role.into());
    c.labels.insert("destination".into(), "prod".into());
    c
}

#[test]
fn stable_id_kamal_is_service_destination() {
    let c = make_kamal_container("web", "logpacer-web-prod-1a2b3c4");
    assert_eq!(c.stable_id(), "logpacer-prod");
}

#[test]
fn stable_instance_id_kamal_is_service_role_destination() {
    let c = make_kamal_container("web", "logpacer-web-prod-1a2b3c4");
    assert_eq!(c.stable_instance_id(), "logpacer-web-prod");
}

#[test]
fn stable_kamal_ids_survive_a_redeploy_to_a_new_sha() {
    let before = make_kamal_container("web", "logpacer-web-prod-1a2b3c4");
    let after = make_kamal_container("web", "logpacer-web-prod-9f8e7d6");
    assert_eq!(before.stable_id(), after.stable_id());
    assert_eq!(before.stable_instance_id(), after.stable_instance_id());
}

#[test]
fn stable_instance_id_kamal_rpc_role() {
    let c = make_kamal_container("rpc", "logpacer-rpc-prod-1a2b3c4");
    assert_eq!(c.stable_instance_id(), "logpacer-rpc-prod");
}

#[test]
fn kamal_web_and_rpc_share_workload_but_differ_per_role() {
    let web = make_kamal_container("web", "logpacer-web-prod-1a2b3c4");
    let rpc = make_kamal_container("rpc", "logpacer-rpc-prod-1a2b3c4");
    assert_eq!(web.stable_id(), rpc.stable_id());
    assert_ne!(web.stable_instance_id(), rpc.stable_instance_id());
}

#[test]
fn stable_instance_id_kamal_without_role_falls_back_to_workload() {
    let mut c = make_kamal_container("web", "logpacer-prod-1a2b3c4");
    c.labels.entries.retain(|e| e.0 != "role");
    assert_eq!(c.stable_instance_id(), "logpacer-prod");
    assert_eq!(c.stable_instance_id(), c.stable_id());
}

#[test]
fn identifier_set_kamal_atoms() {
    let c = make_kamal_container("web", "logpacer-web-prod-1a2b3c4");
    let atoms = c.identifier_set();
    assert_eq!(atoms.get("kamal.service").unwrap(), "logpacer");
    assert_eq!(atoms.get("kamal.role").unwrap(), "web");
    assert_eq!(atoms.get("kamal.destination").unwrap(), "prod");
    assert_eq!(atoms.get("image.repo").unwrap(), "nginx");
    assert_eq!(atoms.get("container.name").unwrap(), "logpacer-web-prod-1a2b3c4");
    assert!(!atoms.contains_key("service_name"));
}

#[test]
fn identifier_set_survives_redeploy_except_container_name() {
    let before = make_kamal_container("web", "logpacer-web-prod-1a2b3c4");
    let after = make_kamal_container("web", "logpacer-web-prod-9f8e7d6");
    let (mut b, mut a) = (before.identifier_set(), after.identifier_set());
    assert_ne!(b.get("container.name"), a.get("container.name"));
    b.entries.retain(|e| e.0 != "container.name");
    a.entries.retain(|e| e.0 != "container.name");
    assert_eq!(sorted(&b), sorted(&a));
}

#[test]
fn identifier_set_k8s_atoms() {
    let mut c = make_container("api-7b4f9c8d5-xyz");
    c.runtime = "kubernetes".into();
    c.namespace = "prod".into();
    c.deployment = "api".into();
    c.workload_kind = "deployment".into();
    c.container_name = "api".into();
    c.image = "ghcr.io/logpacer/api:v1.4.3".into();
    let atoms = c.identifier_set();
    assert_eq!(atoms.get("k8s.namespace").unwrap(), "prod");
    assert_eq!(atoms.get("k8s.workload").unwrap(), "api");
    assert_eq!(atoms.get("k8s.container").unwrap(), "api");
    assert_eq!(atoms.get("image.repo").unwrap(), "ghcr.io/logpacer/api");
}

#[test]
fn identifier_set_compose_atoms() {
    let mut c = make_container("shop-web-1");
    c.labels.insert("com.docker.compose.project".into(), "shop".into());
    c.labels.insert("com.docker.compose.service".into(), "web".into());
    let atoms = c.identifier_set();
    assert_eq!(atoms.get("compose.project").unwrap(), "shop");
    assert_eq!(atoms.get("compose.service").unwrap(), "web");
    assert!(!atoms.contains_key("kamal.service"));
}

#[test]
fn identifier_set_explicit_service_name_carries_consent() {
    let mut c = make_container("api-1");
    c.service_name = "api".into();
    c.service_name_explicit = true;
    assert_eq!(c.identifier_set().get("service_name").unwrap(), "api");

    c.service_name_explicit = false;
    assert!(!c.identifier_set().contains_key("service_name"));
}

#[test]
fn identifier_set_stray_service_label_is_not_kamal() {
    let mut c = make_container("my-app");
    c.labels.insert("service".into(), "something".into());
    assert!(!c.identifier_set().contains_key("kamal.service"));
}

#[test]
fn image_repo_strips_tag_digest_and_keeps_registry_port() {
    assert_eq!(image_repo("nginx:latest").as_deref(), Some("nginx"));
    assert_eq!(image_repo("nginx").as_deref(), Some("nginx"));
    assert_eq!(
        image_repo("ghcr.io/logpacer/api:v1.4.3").as_deref(),
        Some("ghcr.io/logpacer/api")
    );
    assert_eq!(image_repo("registry:5000/app:v1").as_deref(), Some("registry:5000/app"));
    assert_eq!(image_repo("registry:5000/app").as_deref(), Some("registry:5000/app"));
    assert_eq!(image_repo("nginx@sha256:deadbeef").as_deref(), Some("nginx"));
    assert_eq!(image_repo(""), None);
}

#[test]
fn logs_are_read_where_they_are() {
    let files = LocalFiles { paths: vec!["/logs/a.log".to_string()] };
    let mut c = make_container("a");
    c.log_path = "/logs/a.log".into();
    assert_eq!(c.determine_access_method(&files), AccessMethod::DockerJsonFile);
    assert_eq!(c.log_locator(&files), "/logs/a.log");
    c.log_path = "/logs/b.log".into();
    assert_eq!(c.determine_access_method(&files), AccessMethod::DockerApi);
    assert_eq!(c.log_locator(&files), "abc123");
}
