//! Kubernetes pods.
use vstd::prelude::*;
use vstd::string::*;

use crate::discovery::container::{Container, ContainerView, LocalFiles};
use crate::discovery::docker::{non_empty_str, some_text};
use crate::discovery::files::{format_before_sampling, unsampled_format};
use crate::strmap::{clone_map, texts, StrMap};
use crate::text::{join2, join3, opt_str_view, opt_view, rfind, rfind_char, str_eq, strings};

verus! {

/// The token that Kubernetes puts into every pod.
pub const SERVICE_ACCOUNT_TOKEN: &'static str = "/var/run/secrets/kubernetes.io/serviceaccount/token";

/// Whether the agent runs in a pod: Kubernetes has put its token there.
pub fn is_running_in_kubernetes(files: &LocalFiles) -> (r: bool)
    ensures
        r == files@.contains(SERVICE_ACCOUNT_TOKEN@),
{
    files.is_file(SERVICE_ACCOUNT_TOKEN)
}

/// What a pod's metadata says.
pub struct ObjectMeta {
    pub name: Option<String>,
    pub namespace: Option<String>,
    pub uid: Option<String>,
    pub labels: Option<StrMap<String>>,
    pub annotations: Option<StrMap<String>>,
    pub owner_references: Option<Vec<OwnerReference>>,
}

/// What owns a pod.
pub struct OwnerReference {
    pub kind: String,
    pub name: String,
}

/// An environment variable of a container. One whose value comes from elsewhere
/// has none here.
pub struct EnvVar {
    pub name: String,
    pub value: Option<String>,
}

/// A container of a pod spec.
pub struct PodContainer {
    pub name: String,
    pub image: Option<String>,
    pub env: Option<Vec<EnvVar>>,
}

/// What a pod is to run.
pub struct PodSpec {
    pub node_name: Option<String>,
    pub containers: Vec<PodContainer>,
}

/// The state that a status reports.
#[derive(Debug, Clone, Copy, PartialEq, Eq, Structural)]
pub enum ReportedState {
    Running,
    Waiting,
    Terminated,
    Unreported,
}

/// The status of a container of a pod.
pub struct ContainerStatus {
    pub name: String,
    pub container_id: Option<String>,
    pub state: ReportedState,
}

/// What a pod is doing.
pub struct PodStatus {
    pub phase: Option<String>,
    pub container_statuses: Option<Vec<ContainerStatus>>,
}

/// A pod.
pub struct Pod {
    pub metadata: ObjectMeta,
    pub spec: Option<PodSpec>,
    pub status: Option<PodStatus>,
}

/// The text, or `other` where there is none.
pub open spec fn text_or(s: Option<String>, other: Seq<char>) -> Seq<char> {
    match s {
        Some(t) => t@,
        None => other,
    }
}

fn or_text<'a>(s: &'a Option<String>, other: &'a str) -> (r: &'a str)
    ensures
        r@ == text_or(*s, other@),
{
    match s {
        Some(t) => t.as_str(),
        None => other,
    }
}

// ---------------------------------------------------------------------------
// Consent
// ---------------------------------------------------------------------------

/// What several sources say of one thing.
pub enum Said {
    /// None of them says anything.
    Nothing,
    /// They say this, none of them otherwise.
    One(Seq<char>),
    /// They contradict each other.
    Conflict,
}

/// What two sources say together.
pub open spec fn agree(a: Said, b: Said) -> Said {
    match (a, b) {
        (Said::Conflict, _) => Said::Conflict,
        (_, Said::Conflict) => Said::Conflict,
        (Said::Nothing, _) => b,
        (_, Said::Nothing) => a,
        (Said::One(x), Said::One(y)) => if x == y {
            a
        } else {
            Said::Conflict
        },
    }
}

/// What an optional text says, blank ones nothing.
pub open spec fn says(s: Option<Seq<char>>) -> Said {
    match some_text(s) {
        Some(t) => Said::One(t),
        None => Said::Nothing,
    }
}

/// The text under a key of an optional map.
pub open spec fn entry(m: Option<StrMap<String>>, key: Seq<char>) -> Option<Seq<char>> {
    match m {
        Some(map) => if map@.contains_key(key) {
            Some(map@[key]@)
        } else {
            None
        },
        None => None,
    }
}

/// What the variables of a container say of the service name.
pub open spec fn vars_say(vars: Seq<EnvVar>) -> Said
    decreases vars.len(),
{
    if vars.len() == 0 {
        Said::Nothing
    } else {
        let last = vars.last();
        agree(
            vars_say(vars.drop_last()),
            if last.name@ == "LOGPACER_SERVICE_NAME"@ {
                says(opt_view(last.value))
            } else {
                Said::Nothing
            },
        )
    }
}

/// What the containers of a pod say of the service name.
pub open spec fn containers_say(containers: Seq<PodContainer>) -> Said
    decreases containers.len(),
{
    if containers.len() == 0 {
        Said::Nothing
    } else {
        agree(
            containers_say(containers.drop_last()),
            match containers.last().env {
                Some(vars) => vars_say(vars@),
                None => Said::Nothing,
            },
        )
    }
}

/// What a pod says of the service name: its annotation, its label, and the
/// environment of its containers.
pub open spec fn pod_says(metadata: ObjectMeta, spec: PodSpec) -> Said {
    let key = "logpacer.com/service-name"@;
    agree(
        agree(says(entry(metadata.annotations, key)), says(entry(metadata.labels, key))),
        containers_say(spec.containers@),
    )
}

/// What several sources say of one thing.
pub enum Saying {
    Nothing,
    One(String),
    Conflict,
}

impl View for Saying {
    type V = Said;

    open spec fn view(&self) -> Said {
        match self {
            Saying::Nothing => Said::Nothing,
            Saying::One(s) => Said::One(s@),
            Saying::Conflict => Said::Conflict,
        }
    }
}

fn both(a: Saying, b: Saying) -> (r: Saying)
    ensures
        r@ == agree(a@, b@),
{
    match (a, b) {
        (Saying::Conflict, _) => Saying::Conflict,
        (_, Saying::Conflict) => Saying::Conflict,
        (Saying::Nothing, other) => other,
        (one, Saying::Nothing) => one,
        (Saying::One(x), Saying::One(y)) => if str_eq(x.as_str(), y.as_str()) {
            Saying::One(x)
        } else {
            Saying::Conflict
        },
    }
}

fn saying_of(s: Option<&str>) -> (r: Saying)
    ensures
        r@ == says(opt_str_view(s)),
{
    match s {
        Some(t) => match non_empty_str(t) {
            Some(t) => Saying::One(t.to_owned()),
            None => Saying::Nothing,
        },
        None => Saying::Nothing,
    }
}

fn entry_of<'a>(m: &'a Option<StrMap<String>>, key: &str) -> (r: Option<&'a str>)
    ensures
        opt_str_view(r) == entry(*m, key@),
{
    match m {
        Some(map) => match map.get(key) {
            Some(v) => Some(v.as_str()),
            None => None,
        },
        None => None,
    }
}

/// What annotation and label say of the service name.
pub fn metadata_service_name(
    annotations: &Option<StrMap<String>>,
    labels: &Option<StrMap<String>>,
) -> (r: Saying)
    ensures
        r@ == agree(
            says(entry(*annotations, "logpacer.com/service-name"@)),
            says(entry(*labels, "logpacer.com/service-name"@)),
        ),
{
    both(
        saying_of(entry_of(annotations, "logpacer.com/service-name")),
        saying_of(entry_of(labels, "logpacer.com/service-name")),
    )
}

/// What the containers' environments say of the service name. A value that
/// comes from a secret or a config map is not in the pod and says nothing.
pub fn env_service_name(containers: &Vec<PodContainer>) -> (r: Saying)
    ensures
        r@ == containers_say(containers@),
{
    let mut said = Saying::Nothing;
    let mut i: usize = 0;
    while i < containers.len()
        invariant
            i <= containers@.len(),
            said@ == containers_say(containers@.take(i as int)),
        decreases containers.len() - i,
    {
        assert(containers@.take(i + 1).drop_last() =~= containers@.take(i as int));
        let mut own = Saying::Nothing;
        if let Some(vars) = &containers[i].env {
            let mut j: usize = 0;
            while j < vars.len()
                invariant
                    j <= vars@.len(),
                    own@ == vars_say(vars@.take(j as int)),
                decreases vars.len() - j,
            {
                assert(vars@.take(j + 1).drop_last() =~= vars@.take(j as int));
                let says_it = if str_eq(vars[j].name.as_str(), "LOGPACER_SERVICE_NAME") {
                    match &vars[j].value {
                        Some(value) => saying_of(Some(value.as_str())),
                        None => Saying::Nothing,
                    }
                } else {
                    Saying::Nothing
                };
                own = both(own, says_it);
                j = j + 1;
            }
            assert(vars@.take(j as int) =~= vars@);
        }
        said = both(said, own);
        i = i + 1;
    }
    assert(containers@.take(i as int) =~= containers@);
    said
}

/// The service name that a pod explicitly opts in with, if its sources agree on
/// one.
pub fn explicit_service_name_for_pod(metadata: &ObjectMeta, spec: &PodSpec) -> (r: Option<String>)
    ensures
        match r {
            Some(name) => pod_says(*metadata, *spec) == Said::One(name@),
            None => !(pod_says(*metadata, *spec) is One),
        },
{
    let said = both(
        metadata_service_name(&metadata.annotations, &metadata.labels),
        env_service_name(&spec.containers),
    );
    match said {
        Saying::One(name) => Some(name),
        _ => None,
    }
}

// ---------------------------------------------------------------------------
// Owner and state
// ---------------------------------------------------------------------------

/// The workload that owns a pod: its name, its kind, and the replica set in
/// between, if there is one.
#[verifier::ext_equal]
pub struct Owner {
    pub name: Seq<char>,
    pub kind: Seq<char>,
    pub replica_set: Seq<char>,
}

/// The workload that one owner stands for. A deployment names its replica sets
/// `<deployment>-<hash>`.
pub open spec fn owner_workload(owner: OwnerReference) -> Option<Owner> {
    let name = owner.name@;
    let kind = owner.kind@;
    if kind == "ReplicaSet"@ {
        if rfind(name, '-') >= 0 {
            Some(
                Owner { name: name.take(rfind(name, '-')), kind: "deployment"@, replica_set: name },
            )
        } else {
            Some(Owner { name, kind: "replicaset"@, replica_set: name })
        }
    } else if kind == "StatefulSet"@ {
        Some(Owner { name, kind: "statefulset"@, replica_set: seq![] })
    } else if kind == "DaemonSet"@ {
        Some(Owner { name, kind: "daemonset"@, replica_set: seq![] })
    } else if kind == "Job"@ {
        Some(Owner { name, kind: "job"@, replica_set: seq![] })
    } else if kind == "CronJob"@ {
        Some(Owner { name, kind: "cronjob"@, replica_set: seq![] })
    } else {
        None
    }
}

/// The workload that the first owner of a known kind stands for.
pub open spec fn first_owner(owners: Seq<OwnerReference>) -> Option<Owner>
    decreases owners.len(),
{
    if owners.len() == 0 {
        None
    } else if owner_workload(owners[0]) is Some {
        owner_workload(owners[0])
    } else {
        first_owner(owners.skip(1))
    }
}

/// The workload that a pod belongs to: by its owners, else by its `app` labels,
/// else the pod itself.
pub open spec fn workload_of(metadata: ObjectMeta) -> Owner {
    let owned = match metadata.owner_references {
        Some(owners) => first_owner(owners@),
        None => None,
    };
    let named = |name: Seq<char>| Owner { name, kind: "unknown"@, replica_set: seq![] };
    if owned is Some {
        owned->0
    } else if entry(metadata.labels, "app"@) is Some {
        named(entry(metadata.labels, "app"@)->0)
    } else if entry(metadata.labels, "app.kubernetes.io/name"@) is Some {
        named(entry(metadata.labels, "app.kubernetes.io/name"@)->0)
    } else {
        named(text_or(metadata.name, "unknown"@))
    }
}

fn workload_of_owner(owner: &OwnerReference) -> (r: Option<(String, String, String)>)
    ensures
        match r {
            Some((name, kind, replica_set)) => owner_workload(*owner) == Some(
                Owner { name: name@, kind: kind@, replica_set: replica_set@ },
            ),
            None => owner_workload(*owner) is None,
        },
{
    let kind = owner.kind.as_str();
    if str_eq(kind, "ReplicaSet") {
        return match rfind_char(owner.name.as_str(), '-') {
            Some(i) => {
                let name = owner.name.as_str().substring_char(0, i);
                assert(name@ =~= owner.name@.take(i as int));
                Some((name.to_owned(), "deployment".to_owned(), owner.name.clone()))
            },
            None => Some((owner.name.clone(), "replicaset".to_owned(), owner.name.clone())),
        };
    }
    let known = if str_eq(kind, "StatefulSet") {
        "statefulset"
    } else if str_eq(kind, "DaemonSet") {
        "daemonset"
    } else if str_eq(kind, "Job") {
        "job"
    } else if str_eq(kind, "CronJob") {
        "cronjob"
    } else {
        return None;
    };
    let none = String::new();
    assert(none@ =~= seq![]);
    Some((owner.name.clone(), known.to_owned(), none))
}

/// The name, the kind and the replica set of the workload that a pod belongs to.
pub fn get_workload_owner(pod: &Pod) -> (r: (String, String, String))
    ensures
        (Owner { name: r.0@, kind: r.1@, replica_set: r.2@ }) == workload_of(pod.metadata),
{
    if let Some(owners) = &pod.metadata.owner_references {
        let mut i: usize = 0;
        assert(owners@.skip(0) =~= owners@);
        while i < owners.len()
            invariant
                i <= owners@.len(),
                pod.metadata.owner_references == Some(*owners),
                first_owner(owners@) == first_owner(owners@.skip(i as int)),
            decreases owners.len() - i,
        {
            assert(owners@.skip(i as int)[0] == owners@[i as int]);
            assert(owners@.skip(i as int).skip(1) =~= owners@.skip(i + 1));
            if let Some(found) = workload_of_owner(&owners[i]) {
                return found;
            }
            i = i + 1;
        }
    }
    let none = String::new();
    assert(none@ =~= seq![]);
    if let Some(app) = entry_of(&pod.metadata.labels, "app") {
        return (app.to_owned(), "unknown".to_owned(), none);
    }
    if let Some(app) = entry_of(&pod.metadata.labels, "app.kubernetes.io/name") {
        return (app.to_owned(), "unknown".to_owned(), none);
    }
    (or_text(&pod.metadata.name, "unknown").to_owned(), "unknown".to_owned(), none)
}

/// The statuses of a pod's containers.
pub open spec fn statuses_of(status: Option<PodStatus>) -> Seq<ContainerStatus> {
    match status {
        Some(s) => match s.container_statuses {
            Some(list) => list@,
            None => seq![],
        },
        None => seq![],
    }
}

/// The place of the first status of a container, or the number of statuses.
pub open spec fn status_place(statuses: Seq<ContainerStatus>, name: Seq<char>) -> int
    decreases statuses.len(),
{
    if statuses.len() == 0 || statuses[0].name@ == name {
        0
    } else {
        1 + status_place(statuses.skip(1), name)
    }
}

/// The name of a reported state.
pub open spec fn state_name(state: ReportedState) -> Seq<char> {
    match state {
        ReportedState::Running => "running"@,
        ReportedState::Waiting => "waiting"@,
        ReportedState::Terminated => "terminated"@,
        ReportedState::Unreported => "unknown"@,
    }
}

/// The state and the runtime id that a pod's status reports of a container.
pub open spec fn reported(pod: Pod, container_name: Seq<char>) -> (Seq<char>, Option<Seq<char>>) {
    let statuses = statuses_of(pod.status);
    let at = status_place(statuses, container_name);
    if at < statuses.len() {
        (state_name(statuses[at].state), Some(text_or(statuses[at].container_id, seq![])))
    } else {
        ("unknown"@, None)
    }
}

pub fn get_container_state(pod: &Pod, container_name: &str) -> (r: (String, Option<String>))
    ensures
        (r.0@, opt_view(r.1)) == reported(*pod, container_name@),
{
    if let Some(status) = &pod.status {
        if let Some(statuses) = &status.container_statuses {
            let mut i: usize = 0;
            assert(statuses@.skip(0) =~= statuses@);
            while i < statuses.len()
                invariant
                    i <= statuses@.len(),
                    statuses_of(pod.status) == statuses@,
                    status_place(statuses@, container_name@) == i + status_place(
                        statuses@.skip(i as int),
                        container_name@,
                    ),
                decreases statuses.len() - i,
            {
                assert(statuses@.skip(i as int)[0] == statuses@[i as int]);
                assert(statuses@.skip(i as int).skip(1) =~= statuses@.skip(i + 1));
                let cs = &statuses[i];
                if str_eq(cs.name.as_str(), container_name) {
                    let id = match &cs.container_id {
                        Some(id) => id.clone(),
                        None => String::new(),
                    };
                    assert(id@ =~= text_or(cs.container_id, seq![]));
                    let state = match cs.state {
                        ReportedState::Running => "running",
                        ReportedState::Waiting => "waiting",
                        ReportedState::Terminated => "terminated",
                        ReportedState::Unreported => "unknown",
                    };
                    return (state.to_owned(), Some(id));
                }
                i = i + 1;
            }
        }
    }
    ("unknown".to_owned(), None)
}

/// The state that a phase stands for.
pub open spec fn phase_state(phase: Seq<char>) -> Seq<char> {
    if phase == "Running"@ {
        "running"@
    } else if phase == "Pending"@ {
        "pending"@
    } else if phase == "Succeeded"@ {
        "succeeded"@
    } else if phase == "Failed"@ {
        "failed"@
    } else {
        "unknown"@
    }
}

pub fn map_pod_phase(phase: &str) -> (r: &'static str)
    ensures
        r@ == phase_state(phase@),
{
    if str_eq(phase, "Running") {
        "running"
    } else if str_eq(phase, "Pending") {
        "pending"
    } else if str_eq(phase, "Succeeded") {
        "succeeded"
    } else if str_eq(phase, "Failed") {
        "failed"
    } else {
        "unknown"
    }
}

/// The directory of the pods' logs: as configured, else the kubelet's.
pub fn resolve_pod_logs_dir(configured: Option<&str>) -> (r: String)
    ensures
        r@ == match configured {
            Some(dir) => dir@,
            None => "/var/log/pods"@,
        },
{
    match configured {
        Some(dir) => dir.to_owned(),
        None => "/var/log/pods".to_owned(),
    }
}

// ---------------------------------------------------------------------------
// Containers
// ---------------------------------------------------------------------------

/// The labels of a pod.
pub open spec fn pod_labels(metadata: ObjectMeta) -> Map<Seq<char>, Seq<char>> {
    match metadata.labels {
        Some(labels) => texts(labels@),
        None => Map::empty(),
    }
}

/// The container that one entry of a pod's spec describes.
pub open spec fn pod_container_view(
    pod: Pod,
    spec: PodSpec,
    service_name: Seq<char>,
    container: PodContainer,
    pod_logs_dir: Seq<char>,
) -> ContainerView {
    let namespace = text_or(pod.metadata.namespace, "default"@);
    let pod_name = text_or(pod.metadata.name, seq![]);
    let pod_uid = text_or(pod.metadata.uid, seq![]);
    let name = container.name@;
    let phase = match pod.status {
        Some(status) => text_or(status.phase, "Unknown"@),
        None => "Unknown"@,
    };
    let (state, container_id) = reported(pod, name);
    let workload = workload_of(pod.metadata);
    ContainerView {
        id: namespace + "/"@ + pod_name + "/"@ + name,
        name: pod_name + "-"@ + name,
        service_name,
        service_name_explicit: true,
        image: text_or(container.image, seq![]),
        state: if state == "unknown"@ {
            phase_state(phase)
        } else {
            state
        },
        labels: pod_labels(pod.metadata),
        env: seq![],
        runtime: "kubernetes"@,
        log_path: pod_logs_dir + "/"@ + (namespace + "_"@ + pod_name + "_"@ + pod_uid) + "/"@ + name,
        log_format: unsampled_format(pod_labels(pod.metadata)),
        pod_uid,
        pod_name,
        namespace,
        node_name: text_or(spec.node_name, seq![]),
        deployment: workload.name,
        workload_kind: workload.kind,
        container_id: match container_id {
            Some(id) => id,
            None => seq![],
        },
        container_name: name,
        runtime_process: None,
    }
}

/// What the containers of a list are.
pub open spec fn container_views(v: Seq<Container>) -> Seq<ContainerView> {
    v.map_values(|c: Container| c@)
}

/// The containers of a pod: one for each in its spec where the pod opts in,
/// none where it does not.
pub open spec fn pod_containers(pod: Pod, pod_logs_dir: Seq<char>) -> Seq<ContainerView> {
    match pod.spec {
        None => seq![],
        Some(spec) => match pod_says(pod.metadata, spec) {
            Said::One(service) => spec.containers@.map_values(
                |c: PodContainer| pod_container_view(pod, spec, service, c, pod_logs_dir),
            ),
            _ => seq![],
        },
    }
}

fn text_owned(s: &Option<String>) -> (r: String)
    ensures
        r@ == text_or(*s, seq![]),
{
    match s {
        Some(t) => t.clone(),
        None => {
            let none = String::new();
            assert(none@ =~= seq![]);
            none
        },
    }
}

fn copy_labels(metadata: &ObjectMeta) -> (r: StrMap<String>)
    ensures
        texts(r@) == pod_labels(*metadata),
{
    match &metadata.labels {
        Some(labels) => clone_map(labels),
        None => {
            let r: StrMap<String> = StrMap::new();
            assert(texts(r@) =~= Map::<Seq<char>, Seq<char>>::empty());
            r
        },
    }
}

fn pod_container(
    pod: &Pod,
    spec: &PodSpec,
    service_name: &String,
    container: &PodContainer,
    pod_logs_dir: &str,
) -> (r: Container)
    ensures
        r@ == pod_container_view(*pod, *spec, service_name@, *container, pod_logs_dir@),
{
    let namespace = or_text(&pod.metadata.namespace, "default");
    let pod_name = text_owned(&pod.metadata.name);
    let pod_uid = text_owned(&pod.metadata.uid);
    let (deployment, workload_kind, _replica_set) = get_workload_owner(pod);
    let phase = match &pod.status {
        Some(status) => or_text(&status.phase, "Unknown"),
        None => "Unknown",
    };
    let (reported_state, container_id) = get_container_state(pod, container.name.as_str());
    let state = if str_eq(reported_state.as_str(), "unknown") {
        map_pod_phase(phase).to_owned()
    } else {
        reported_state
    };
    let dir = join3(namespace, "_", pod_name.as_str(), pod_uid.as_str());
    let log_path = join3(pod_logs_dir, "/", dir.as_str(), container.name.as_str());
    let labels = copy_labels(&pod.metadata);
    let log_format = format_before_sampling(&labels);
    let env: Vec<String> = Vec::new();
    assert(strings(env@) =~= seq![]);
    let container_id = match container_id {
        Some(id) => id,
        None => {
            let none = String::new();
            assert(none@ =~= seq![]);
            none
        },
    };
    let r = Container {
        id: join3(namespace, "/", pod_name.as_str(), container.name.as_str()),
        name: join2(pod_name.as_str(), "-", container.name.as_str()),
        service_name: service_name.clone(),
        service_name_explicit: true,
        image: text_owned(&container.image),
        state,
        labels,
        env,
        runtime: "kubernetes".to_owned(),
        log_path,
        log_format,
        pod_uid,
        pod_name,
        namespace: namespace.to_owned(),
        node_name: text_owned(&spec.node_name),
        deployment,
        workload_kind,
        container_id,
        container_name: container.name.clone(),
        runtime_process: None,
    };
    assert(r@ =~= pod_container_view(*pod, *spec, service_name@, *container, pod_logs_dir@));
    r
}

/// The containers of a pod that opted in.
pub fn process_pod(pod: &Pod, pod_logs_dir: &str) -> (r: Vec<Container>)
    ensures
        container_views(r@) == pod_containers(*pod, pod_logs_dir@),
{
    let mut out: Vec<Container> = Vec::new();
    assert(container_views(out@) =~= seq![]);
    let spec = match &pod.spec {
        Some(spec) => spec,
        None => {
            return out;
        },
    };
    let service_name = match explicit_service_name_for_pod(&pod.metadata, spec) {
        Some(name) => name,
        None => {
            return out;
        },
    };
    let ghost f = |c: PodContainer|
        pod_container_view(*pod, *spec, service_name@, c, pod_logs_dir@);
    let ghost all = spec.containers@.map_values(f);
    let mut i: usize = 0;
    while i < spec.containers.len()
        invariant
            i <= spec.containers@.len(),
            f == (|c: PodContainer|
                pod_container_view(*pod, *spec, service_name@, c, pod_logs_dir@)),
            all == spec.containers@.map_values(f),
            container_views(out@) == all.take(i as int),
        decreases spec.containers.len() - i,
    {
        let ghost before = container_views(out@);
        let c = pod_container(pod, spec, &service_name, &spec.containers[i], pod_logs_dir);
        assert(c@ == all[i as int]);
        out.push(c);
        assert(container_views(out@) =~= before.push(c@));
        i = i + 1;
        assert(all.take(i as int) =~= all.take(i - 1).push(all[i - 1]));
    }
    assert(all.take(i as int) =~= all);
    assert(pod_says(pod.metadata, *spec) == Said::One(service_name@));
    out
}

/// A pod that says nothing of a service name, or contradicts itself, is not
/// collected from.
pub proof fn no_consent_no_containers(pod: Pod, spec: PodSpec, pod_logs_dir: Seq<char>)
    requires
        pod.spec == Some(spec),
        !(pod_says(pod.metadata, spec) is One),
    ensures
        pod_containers(pod, pod_logs_dir).len() == 0,
{
}

/// Every container that a pod yields carries the pod's consent.
pub proof fn pod_containers_are_explicit(pod: Pod, pod_logs_dir: Seq<char>, i: int)
    requires
        0 <= i < pod_containers(pod, pod_logs_dir).len(),
    ensures
        pod_containers(pod, pod_logs_dir)[i].service_name_explicit,
        pod.spec is Some,
        pod_says(pod.metadata, pod.spec->0) == Said::One(
            pod_containers(pod, pod_logs_dir)[i].service_name,
        ),
{
}

} // verus!
