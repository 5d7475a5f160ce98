use edgepacer::discovery::container::LocalFiles;
use edgepacer::discovery::kubernetes::{
    get_container_state, get_workload_owner, is_running_in_kubernetes, map_pod_phase, process_pod,
    resolve_pod_logs_dir, ContainerStatus, EnvVar, ObjectMeta, OwnerReference, Pod, PodContainer,
    PodSpec, PodStatus, ReportedState,
};
use edgepacer::strmap::StrMap;

const SERVICE_NAME_ENV: &str = "LOGPACER_SERVICE_NAME";
const SERVICE_NAME_KEY: &str = "logpacer.com/service-name";

fn service_name_env(value: &str) -> EnvVar {
    EnvVar { name: SERVICE_NAME_ENV.into(), value: Some(value.into()) }
}

fn app_container() -> PodContainer {
    PodContainer { name: "app".into(), image: Some("nginx:latest".into()), env: None }
}

fn make_pod_with_owner(kind: &str, name: &str) -> Pod {
    Pod {
        metadata: ObjectMeta {
            name: Some("test-pod".into()),
            namespace: Some("default".into()),
            uid: Some("test-uid".into()),
            labels: None,
            annotations: None,
            owner_references: Some(vec![OwnerReference { kind: kind.into(), name: name.into() }]),
        },
        spec: Some(PodSpec { node_name: None, containers: vec![app_container()] }),
        status: None,
    }
}

fn one(key: &str, value: &str) -> StrMap<String> {
    let mut m = StrMap::new();
    m.insert(key.to_string(), value.to_string());
    m
}

fn set_service_annotation(pod: &mut Pod, value: &str) {
    pod.metadata.annotations = Some(one(SERVICE_NAME_KEY, value));
}

fn set_service_label(pod: &mut Pod, value: &str) {
    pod.metadata.labels = Some(one(SERVICE_NAME_KEY, value));
}

fn set_env(pod: &mut Pod, env: Vec<EnvVar>) {
    pod.spec.as_mut().unwrap().containers[0].env = Some(env);
}

#[test]
fn log_path_includes_namespace_prefix() {
    let mut pod = make_pod_with_owner("ReplicaSet", "nginx-deploy-7b4f9c8d5");
    set_service_annotation(&mut pod, "nginx");
    let containers = process_pod(&pod, "/var/log/pods");
    assert_eq!(containers.len(), 1);
    assert_eq!(containers[0].log_path, "/var/log/pods/default_test-pod_test-uid/app");
    assert_eq!(containers[0].container_name, "app");
}

#[test]
fn pod_annotation_opts_in_service_name() {
    let mut pod = make_pod_with_owner("ReplicaSet", "checkout-7b4f9c8d5");
    set_service_annotation(&mut pod, "checkout-api");

    let containers = process_pod(&pod, "/var/log/pods");

    assert_eq!(containers.len(), 1);
    assert_eq!(containers[0].service_name, "checkout-api");
    assert!(containers[0].service_name_explicit);
}

#[test]
fn pod_label_opts_in_service_name() {
    let mut pod = make_pod_with_owner("ReplicaSet", "checkout-7b4f9c8d5");
    set_service_label(&mut pod, "checkout-worker");

    let containers = process_pod(&pod, "/var/log/pods");

    assert_eq!(containers[0].service_name, "checkout-worker");
    assert!(containers[0].service_name_explicit);
}

#[test]
fn matching_annotation_and_label_opt_in() {
    let mut pod = make_pod_with_owner("ReplicaSet", "checkout-7b4f9c8d5");
    set_service_annotation(&mut pod, "checkout-api");
    set_service_label(&mut pod, "checkout-api");

    let containers = process_pod(&pod, "/var/log/pods");

    assert_eq!(containers.len(), 1);
    assert_eq!(containers[0].service_name, "checkout-api");
    assert!(containers[0].service_name_explicit);
}

#[test]
fn direct_env_remains_compatibility_opt_in() {
    let mut pod = make_pod_with_owner("ReplicaSet", "checkout-7b4f9c8d5");
    set_env(&mut pod, vec![service_name_env("checkout-env")]);

    let containers = process_pod(&pod, "/var/log/pods");

    assert_eq!(containers[0].service_name, "checkout-env");
    assert!(containers[0].service_name_explicit);
}

#[test]
fn pod_without_opt_in_is_ignored() {
    let pod = make_pod_with_owner("ReplicaSet", "checkout-7b4f9c8d5");

    let containers = process_pod(&pod, "/var/log/pods");

    assert!(containers.is_empty());
}

#[test]
fn env_from_only_is_not_explicit_opt_in() {
    let mut pod = make_pod_with_owner("ReplicaSet", "checkout-7b4f9c8d5");
    // What another object supplies is not among the variables of the container.
    set_env(&mut pod, vec![]);

    let containers = process_pod(&pod, "/var/log/pods");

    assert!(containers.is_empty());
}

#[test]
fn value_from_only_is_not_explicit_opt_in() {
    let mut pod = make_pod_with_owner("ReplicaSet", "checkout-7b4f9c8d5");
    set_env(&mut pod, vec![EnvVar { name: SERVICE_NAME_ENV.into(), value: None }]);

    let containers = process_pod(&pod, "/var/log/pods");

    assert!(containers.is_empty());
}

#[test]
fn conflicting_metadata_and_env_fail_closed() {
    let mut pod = make_pod_with_owner("ReplicaSet", "checkout-7b4f9c8d5");
    set_service_annotation(&mut pod, "checkout-api");
    set_env(&mut pod, vec![service_name_env("checkout-worker")]);

    let containers = process_pod(&pod, "/var/log/pods");

    assert!(containers.is_empty());
}

#[test]
fn conflicting_annotation_and_label_fail_closed() {
    let mut pod = make_pod_with_owner("ReplicaSet", "checkout-7b4f9c8d5");
    set_service_annotation(&mut pod, "checkout-api");
    set_service_label(&mut pod, "checkout-worker");

    let containers = process_pod(&pod, "/var/log/pods");

    assert!(containers.is_empty());
}

#[test]
fn test_workload_owner_from_replicaset() {
    let pod = make_pod_with_owner("ReplicaSet", "nginx-deploy-7b4f9c8d5");
    let (name, kind, rs) = get_workload_owner(&pod);
    assert_eq!(name, "nginx-deploy");
    assert_eq!(kind, "deployment");
    assert_eq!(rs, "nginx-deploy-7b4f9c8d5");
}

#[test]
fn test_workload_owner_from_statefulset() {
    let pod = make_pod_with_owner("StatefulSet", "postgres");
    let (name, kind, rs) = get_workload_owner(&pod);
    assert_eq!(name, "postgres");
    assert_eq!(kind, "statefulset");
    assert_eq!(rs, "");
}

#[test]
fn test_workload_owner_from_daemonset() {
    let pod = make_pod_with_owner("DaemonSet", "fluentbit");
    let (name, kind, rs) = get_workload_owner(&pod);
    assert_eq!(name, "fluentbit");
    assert_eq!(kind, "daemonset");
    assert_eq!(rs, "");
}

#[test]
fn test_workload_owner_fallback_labels() {
    let pod = Pod {
        metadata: ObjectMeta {
            name: Some("test-pod".into()),
            namespace: Some("default".into()),
            uid: None,
            labels: Some(one("app", "my-service")),
            annotations: None,
            owner_references: None,
        },
        spec: Some(PodSpec { node_name: None, containers: vec![app_container()] }),
        status: None,
    };

    let (name, kind, _) = get_workload_owner(&pod);
    assert_eq!(name, "my-service");
    assert_eq!(kind, "unknown");
}

#[test]
fn test_pod_logs_dir_default() {
    assert_eq!(resolve_pod_logs_dir(None), "/var/log/pods");
    assert_eq!(resolve_pod_logs_dir(Some("/pods")), "/pods");
}

#[test]
fn test_not_in_kubernetes() {
    assert!(!is_running_in_kubernetes(&LocalFiles { paths: vec![] }));
    assert!(is_running_in_kubernetes(&LocalFiles {
        paths: vec!["/var/run/secrets/kubernetes.io/serviceaccount/token".to_string()]
    }));
}

#[test]
fn states_come_from_the_container_or_the_phase() {
    let mut pod = make_pod_with_owner("ReplicaSet", "api-7b4f9c8d5");
    assert_eq!(map_pod_phase("Running"), "running");
    assert_eq!(map_pod_phase("Pending"), "pending");
    pod.status = Some(PodStatus {
        phase: Some("Running".into()),
        container_statuses: Some(vec![ContainerStatus {
            name: "app".into(),
            container_id: Some("containerd://1".into()),
            state: ReportedState::Terminated,
        }]),
    });
    let (state, id) = get_container_state(&pod, "app");
    assert_eq!(state, "terminated");
    assert_eq!(id.as_deref(), Some("containerd://1"));
    let (state, id) = get_container_state(&pod, "sidecar");
    assert_eq!(state, "running");
    assert_eq!(id, None);
}
