//! Containers and their stable identities.
//!
//! A container is known by what survives a restart or a redeploy: the names that
//! its orchestrator gave the workload, never the runtime's own ids.
use vstd::prelude::*;
use vstd::string::*;

use crate::strmap::{clone_map, texts, StrMap};
use crate::text::{
    clone_strings, concat, find, is_numeric, join2, join3, numeric, opt_str_view, opt_view, parse_u32,
    parse_u64, parsed, rfind, rfind_char, find_char, split, split_char, split_whitespace, str_eq,
    strings, strip_prefix, strs, trim, trimmed, words,
};

verus! {

/// A local runtime process handle guarded against Linux PID reuse.
#[derive(Debug, Clone, Copy, PartialEq, Eq, PartialOrd, Ord, Hash, Structural)]
pub struct RuntimeProcessIdentity {
    pub pid: u32,
    pub start_time_ticks: u64,
}

impl RuntimeProcessIdentity {
    /// The process id.
    pub fn pid(self) -> (r: u32)
        ensures
            r == self.pid,
    {
        self.pid
    }

    /// Whether the process is still the same: `now` is what its `stat` file says
    /// at this moment.
    pub fn is_current(self, now: Option<RuntimeProcessIdentity>) -> (r: bool)
        ensures
            r == (now == Some(self)),
    {
        match now {
            Some(other) => other.pid == self.pid && other.start_time_ticks == self.start_time_ticks,
            None => false,
        }
    }
}

/// Process id and birth token in the text of `/proc/<pid>/stat`. The second
/// field stands in parentheses and may itself hold spaces and parentheses, so
/// the fields after it are counted from the last closing one: the birth token is
/// the twentieth of them.
pub open spec fn identity_from_stat(expected_pid: u32, stat: Seq<char>) -> Option<
    RuntimeProcessIdentity,
> {
    let open = find(stat, '(') as int;
    let close = rfind(stat, ')');
    let fields = words(stat.skip(close + 1));
    if expected_pid == 0 || open >= stat.len() || close <= open {
        None
    } else if parsed(trimmed(stat.take(open)), 10, u32::MAX as nat) != Some(expected_pid as nat) {
        None
    } else if fields.len() <= 19 {
        None
    } else {
        match parsed(fields[19], 10, u64::MAX as nat) {
            Some(ticks) => if ticks == 0 {
                None
            } else {
                Some(RuntimeProcessIdentity { pid: expected_pid, start_time_ticks: ticks as u64 })
            },
            None => None,
        }
    }
}

/// Reads the identity of a process from the text of its `stat` file.
pub fn runtime_process_identity_from_stat(expected_pid: u32, stat: &str) -> (r: Option<
    RuntimeProcessIdentity,
>)
    ensures
        r == identity_from_stat(expected_pid, stat@),
{
    if expected_pid == 0 {
        return None;
    }
    let open = match find_char(stat, '(') {
        Some(i) => i,
        None => {
            return None;
        },
    };
    let close = match rfind_char(stat, ')') {
        Some(i) => i,
        None => {
            return None;
        },
    };
    if close <= open {
        return None;
    }
    let head = stat.substring_char(0, open);
    assert(head@ =~= stat@.take(open as int));
    match parse_u32(trim(head)) {
        Some(pid) => {
            if pid != expected_pid {
                return None;
            }
        },
        None => {
            return None;
        },
    }
    let n = stat.unicode_len();
    let tail = stat.substring_char(close + 1, n);
    assert(tail@ =~= stat@.skip(close + 1));
    let fields = split_whitespace(tail);
    assert(strs(fields@).len() == fields@.len());
    if fields.len() <= 19 {
        return None;
    }
    assert(strs(fields@)[19] == fields@[19]@);
    match parse_u64(fields[19]) {
        Some(ticks) => {
            if ticks == 0 {
                None
            } else {
                Some(RuntimeProcessIdentity { pid: expected_pid, start_time_ticks: ticks })
            }
        },
        None => None,
    }
}

/// The regular files that the host was seen to hold at some moment.
pub struct LocalFiles {
    pub paths: Vec<String>,
}

impl View for LocalFiles {
    type V = Set<Seq<char>>;

    open spec fn view(&self) -> Set<Seq<char>> {
        strings(self.paths@).to_set()
    }
}

impl LocalFiles {
    /// Whether a regular file was seen at `path`.
    pub fn is_file(&self, path: &str) -> (r: bool)
        ensures
            r == self@.contains(path@),
    {
        crate::text::contains_string(&self.paths, path)
    }
}

/// How a log source is read.
#[derive(Debug, Clone, Copy, PartialEq, Eq, Structural)]
pub enum AccessMethod {
    File,
    DockerJsonFile,
    DockerApi,
    Journald,
    Kubernetes,
    WindowsEventLog,
}

/// A discovered container (Docker, Kubernetes, containerd).
pub struct Container {
    pub id: String,
    pub name: String,
    pub service_name: String,
    /// True only when `service_name` came from an explicit opt-in: the literal
    /// environment variable, a CRI label, or Kubernetes pod metadata. Compose
    /// labels and workload names fill `service_name` too, but are not consent.
    pub service_name_explicit: bool,
    pub image: String,
    pub state: String,
    pub labels: StrMap<String>,
    pub env: Vec<String>,
    pub runtime: String,
    pub log_path: String,
    /// Format of the application's payload, without the runtime's framing.
    pub log_format: String,
    // Kubernetes fields, empty elsewhere.
    pub pod_uid: String,
    pub pod_name: String,
    pub namespace: String,
    pub node_name: String,
    pub deployment: String,
    /// Kind of the workload that owns the pod. A StatefulSet pod has a stable
    /// ordinal, a DaemonSet pod is pinned to a node, others are fungible.
    pub workload_kind: String,
    pub container_id: String,
    /// Container name from the pod spec.
    pub container_name: String,
    /// Host identity of the container's init process, never reported.
    pub runtime_process: Option<RuntimeProcessIdentity>,
}

/// What a container is: its texts as character sequences, its labels as a map.
#[verifier::ext_equal]
pub struct ContainerView {
    pub id: Seq<char>,
    pub name: Seq<char>,
    pub service_name: Seq<char>,
    pub service_name_explicit: bool,
    pub image: Seq<char>,
    pub state: Seq<char>,
    pub labels: Map<Seq<char>, Seq<char>>,
    pub env: Seq<Seq<char>>,
    pub runtime: Seq<char>,
    pub log_path: Seq<char>,
    pub log_format: Seq<char>,
    pub pod_uid: Seq<char>,
    pub pod_name: Seq<char>,
    pub namespace: Seq<char>,
    pub node_name: Seq<char>,
    pub deployment: Seq<char>,
    pub workload_kind: Seq<char>,
    pub container_id: Seq<char>,
    pub container_name: Seq<char>,
    pub runtime_process: Option<RuntimeProcessIdentity>,
}

impl View for Container {
    type V = ContainerView;

    open spec fn view(&self) -> ContainerView {
        ContainerView {
            id: self.id@,
            name: self.name@,
            service_name: self.service_name@,
            service_name_explicit: self.service_name_explicit,
            image: self.image@,
            state: self.state@,
            labels: texts(self.labels@),
            env: strings(self.env@),
            runtime: self.runtime@,
            log_path: self.log_path@,
            log_format: self.log_format@,
            pod_uid: self.pod_uid@,
            pod_name: self.pod_name@,
            namespace: self.namespace@,
            node_name: self.node_name@,
            deployment: self.deployment@,
            workload_kind: self.workload_kind@,
            container_id: self.container_id@,
            container_name: self.container_name@,
            runtime_process: self.runtime_process,
        }
    }
}

// ---------------------------------------------------------------------------
// Ordinals and slots
// ---------------------------------------------------------------------------

/// What follows `prefix` in `s`, where it is a number and `s` begins with `prefix`.
pub open spec fn number_after(s: Seq<char>, prefix: Seq<char>) -> Option<Seq<char>> {
    if prefix.is_prefix_of(s) && numeric(s.skip(prefix.len() as int)) {
        Some(s.skip(prefix.len() as int))
    } else {
        None
    }
}

fn numeric_suffix(s: &str, prefix: &str) -> (r: Option<String>)
    ensures
        opt_view(r) == number_after(s@, prefix@),
{
    match strip_prefix(s, prefix) {
        Some(rest) => if is_numeric(rest) {
            Some(rest.to_owned())
        } else {
            None
        },
        None => None,
    }
}

/// Ordinal of a StatefulSet pod, whose name is `<workload>-<ordinal>`.
pub open spec fn pod_ordinal_of(pod_name: Seq<char>, workload: Seq<char>) -> Option<Seq<char>> {
    number_after(pod_name, workload + "-"@)
}

pub fn pod_ordinal(pod_name: &str, workload: &str) -> (r: Option<String>)
    ensures
        opt_view(r) == pod_ordinal_of(pod_name@, workload@),
{
    let prefix = concat(workload, "-");
    numeric_suffix(pod_name, prefix.as_str())
}

/// Ordinal of a Compose replica, whose name is `<project>-<service>-<ordinal>`,
/// or the same with underscores. The hyphenated form is the one that counts
/// where both prefixes fit.
pub open spec fn compose_ordinal_of(
    name: Seq<char>,
    project: Seq<char>,
    service: Seq<char>,
) -> Option<Seq<char>> {
    let hyphens = project + "-"@ + service + "-"@;
    let underscores = project + "_"@ + service + "_"@;
    if hyphens.is_prefix_of(name) {
        number_after(name, hyphens)
    } else {
        number_after(name, underscores)
    }
}

pub fn compose_ordinal(name: &str, project: &str, service: &str) -> (r: Option<String>)
    ensures
        opt_view(r) == compose_ordinal_of(name@, project@, service@),
{
    let mut hyphens = join2(project, "-", service);
    hyphens.append("-");
    if crate::text::starts_with(name, hyphens.as_str()) {
        return numeric_suffix(name, hyphens.as_str());
    }
    let mut underscores = join2(project, "_", service);
    underscores.append("_");
    numeric_suffix(name, underscores.as_str())
}

/// Slot of a Swarm task, the second part of `<service>.<slot>.<task id>`.
pub open spec fn swarm_slot_of(task_name: Seq<char>) -> Option<Seq<char>> {
    let parts = split(task_name, '.');
    if parts.len() > 1 && numeric(parts[1]) {
        Some(parts[1])
    } else {
        None
    }
}

pub fn swarm_slot(task_name: &str) -> (r: Option<String>)
    ensures
        opt_view(r) == swarm_slot_of(task_name@),
{
    let parts = split_char(task_name, '.');
    assert(strs(parts@).len() == parts@.len());
    if parts.len() > 1 {
        assert(strs(parts@)[1] == parts@[1]@);
        if is_numeric(parts[1]) {
            return Some(parts[1].to_owned());
        }
    }
    None
}

/// An image reference without its digest and tag. A colon marks a tag only
/// after the last slash, so a registry's port stays.
pub open spec fn image_repo_of(image: Seq<char>) -> Option<Seq<char>> {
    let bare = image.take(find(image, '@') as int);
    let slash = if rfind(bare, '/') < 0 {
        0
    } else {
        rfind(bare, '/')
    };
    let repo = if rfind(bare, ':') > slash {
        bare.take(rfind(bare, ':'))
    } else {
        bare
    };
    if repo.len() > 0 {
        Some(repo)
    } else {
        None
    }
}

pub fn image_repo(image: &str) -> (r: Option<String>)
    ensures
        opt_view(r) == image_repo_of(image@),
{
    let bare = match find_char(image, '@') {
        Some(i) => {
            let head = image.substring_char(0, i);
            assert(head@ =~= image@.take(i as int));
            head
        },
        None => {
            assert(image@.take(image@.len() as int) =~= image@);
            image
        },
    };
    let slash: usize = match rfind_char(bare, '/') {
        Some(i) => i,
        None => 0,
    };
    let repo = match rfind_char(bare, ':') {
        Some(i) => if i > slash {
            let head = bare.substring_char(0, i);
            assert(head@ =~= bare@.take(i as int));
            head
        } else {
            bare
        },
        None => bare,
    };
    if repo.is_empty() {
        None
    } else {
        Some(repo.to_owned())
    }
}

// ---------------------------------------------------------------------------
// Identity
// ---------------------------------------------------------------------------

/// `m` with `value` under `key`, where there is a value.
pub open spec fn with_atom(
    m: Map<Seq<char>, Seq<char>>,
    key: Seq<char>,
    value: Option<Seq<char>>,
) -> Map<Seq<char>, Seq<char>> {
    match value {
        Some(v) => m.insert(key, v),
        None => m,
    }
}

/// A text, unless it is empty.
pub open spec fn non_empty(s: Seq<char>) -> Option<Seq<char>> {
    if s.len() > 0 {
        Some(s)
    } else {
        None
    }
}

impl ContainerView {
    /// The label under `key`.
    pub open spec fn label(self, key: Seq<char>) -> Option<Seq<char>> {
        if self.labels.contains_key(key) {
            Some(self.labels[key])
        } else {
            None
        }
    }

    /// Whether Kubernetes says which workload the container belongs to.
    pub open spec fn in_workload(self) -> bool {
        self.namespace.len() > 0 && self.deployment.len() > 0
    }

    /// The name in the pod spec, or the runtime's name where there is none.
    pub open spec fn spec_name(self) -> Seq<char> {
        if self.container_name.len() > 0 {
            self.container_name
        } else {
            self.name
        }
    }

    /// The workload's identity, the same across restarts and rescheduling.
    pub open spec fn stable_id(self) -> Seq<char> {
        let project = self.label("com.docker.compose.project"@);
        let compose = self.label("com.docker.compose.service"@);
        let stack = self.label("com.docker.stack.namespace"@);
        let swarm = self.label("com.docker.swarm.service.name"@);
        let service = self.label("service"@);
        let destination = self.label("destination"@);
        if self.in_workload() {
            self.namespace + "/"@ + self.deployment + "/"@ + self.spec_name()
        } else if compose is Some {
            if project is Some {
                project->0 + "/"@ + compose->0
            } else {
                compose->0
            }
        } else if swarm is Some {
            if stack is Some {
                stack->0 + "/"@ + swarm->0
            } else {
                swarm->0
            }
        } else if service is Some && destination is Some {
            service->0 + "-"@ + destination->0
        } else {
            self.name
        }
    }

    /// The ordinal of a Compose replica: the number that Compose labels it
    /// with, or the one at the end of its name.
    pub open spec fn compose_replica(self, project: Seq<char>, service: Seq<char>) -> Option<
        Seq<char>,
    > {
        let numbered = self.label("com.docker.compose.container-number"@);
        if numbered is Some && numeric(numbered->0) {
            numbered
        } else {
            compose_ordinal_of(self.name, project, service)
        }
    }

    /// The slot in the name of the Swarm task.
    pub open spec fn task_slot(self) -> Option<Seq<char>> {
        match self.label("com.docker.swarm.task.name"@) {
            Some(task) => swarm_slot_of(task),
            None => None,
        }
    }

    /// The identity of one replica of the workload, the same across redeploys.
    pub open spec fn stable_instance_id(self) -> Seq<char> {
        let project = self.label("com.docker.compose.project"@);
        let compose = self.label("com.docker.compose.service"@);
        let stack = self.label("com.docker.stack.namespace"@);
        let swarm = self.label("com.docker.swarm.service.name"@);
        let service = self.label("service"@);
        let destination = self.label("destination"@);
        let role = self.label("role"@);
        if self.in_workload() {
            if self.workload_kind == "statefulset"@ {
                match pod_ordinal_of(self.pod_name, self.deployment) {
                    Some(ordinal) => self.stable_id() + "/"@ + ordinal,
                    None => self.stable_id(),
                }
            } else if self.workload_kind == "daemonset"@ && self.node_name.len() > 0 {
                self.stable_id() + "/"@ + self.node_name
            } else {
                self.stable_id()
            }
        } else if project is Some && compose is Some {
            let workload = project->0 + "/"@ + compose->0;
            match self.compose_replica(project->0, compose->0) {
                Some(ordinal) => workload + "/"@ + ordinal,
                None => workload,
            }
        } else if swarm is Some {
            let workload = if stack is Some {
                stack->0 + "/"@ + swarm->0
            } else {
                swarm->0
            };
            match self.task_slot() {
                Some(slot) => workload + "/"@ + slot,
                None => workload,
            }
        } else if service is Some && destination is Some {
            match role {
                Some(r) => service->0 + "-"@ + r + "-"@ + destination->0,
                None => service->0 + "-"@ + destination->0,
            }
        } else {
            self.name
        }
    }

    /// Whether the container explicitly opted into collection.
    pub open spec fn explicit_service(self) -> bool {
        self.service_name_explicit && self.service_name.len() > 0
    }

    /// The atoms that a selector can speak of: every stable fact that discovery
    /// saw of the service, by kind. Handles of one instance (container id, pod
    /// uid, image tag) are not among them.
    pub open spec fn identifier_set(self) -> Map<Seq<char>, Seq<char>> {
        let kamal = self.label("service"@) is Some && self.label("destination"@) is Some;
        let m = Map::<Seq<char>, Seq<char>>::empty();
        let m = with_atom(
            m,
            "service_name"@,
            if self.explicit_service() {
                Some(self.service_name)
            } else {
                None
            },
        );
        let m = with_atom(
            m,
            "kamal.service"@,
            if kamal {
                self.label("service"@)
            } else {
                None
            },
        );
        let m = with_atom(
            m,
            "kamal.destination"@,
            if kamal {
                self.label("destination"@)
            } else {
                None
            },
        );
        let m = with_atom(
            m,
            "kamal.role"@,
            if kamal {
                self.label("role"@)
            } else {
                None
            },
        );
        let m = with_atom(m, "compose.project"@, self.label("com.docker.compose.project"@));
        let m = with_atom(m, "compose.service"@, self.label("com.docker.compose.service"@));
        let m = with_atom(m, "swarm.stack"@, self.label("com.docker.stack.namespace"@));
        let m = with_atom(m, "swarm.service"@, self.label("com.docker.swarm.service.name"@));
        let m = with_atom(m, "k8s.namespace"@, non_empty(self.namespace));
        let m = with_atom(m, "k8s.workload"@, non_empty(self.deployment));
        let m = with_atom(m, "k8s.container"@, non_empty(self.container_name));
        let m = with_atom(m, "image.repo"@, image_repo_of(self.image));
        with_atom(m, "container.name"@, non_empty(self.name))
    }

    /// How the container's log is read, given which regular files the host holds.
    pub open spec fn access_method(self, files: Set<Seq<char>>) -> AccessMethod {
        if self.runtime == "kubernetes"@ {
            AccessMethod::Kubernetes
        } else if self.runtime == "docker"@ {
            if self.log_path.len() > 0 && files.contains(self.log_path) {
                AccessMethod::DockerJsonFile
            } else {
                AccessMethod::DockerApi
            }
        } else if self.runtime == "containerd"@ || self.runtime == "cri-o"@ || self.runtime
            == "podman"@ || self.log_path.len() > 0 {
            AccessMethod::File
        } else {
            AccessMethod::DockerApi
        }
    }

    /// What the reader of that access method opens.
    pub open spec fn log_locator(self, files: Set<Seq<char>>) -> Seq<char> {
        if self.access_method(files) == AccessMethod::DockerApi {
            if self.container_id.len() == 0 {
                self.name
            } else {
                self.container_id
            }
        } else {
            self.log_path
        }
    }
}

fn put_atom(atoms: &mut StrMap<String>, key: &str, value: Option<&str>)
    ensures
        texts(final(atoms)@) == with_atom(texts(old(atoms)@), key@, opt_str_view(value)),
        old(atoms).distinct() ==> final(atoms).distinct(),
{
    match value {
        Some(v) => {
            atoms.insert(key.to_owned(), v.to_owned());
            assert(texts(atoms@) =~= texts(old(atoms)@).insert(key@, v@));
        },
        None => {},
    }
}

fn if_non_empty<'a>(s: &'a str) -> (r: Option<&'a str>)
    ensures
        opt_str_view(r) == non_empty(s@),
{
    if s.is_empty() {
        None
    } else {
        Some(s)
    }
}

impl Container {
    /// A copy of the container.
    pub fn copy(&self) -> (r: Self)
        ensures
            r@ == self@,
    {
        Container {
            id: self.id.clone(),
            name: self.name.clone(),
            service_name: self.service_name.clone(),
            service_name_explicit: self.service_name_explicit,
            image: self.image.clone(),
            state: self.state.clone(),
            labels: clone_map(&self.labels),
            env: clone_strings(&self.env),
            runtime: self.runtime.clone(),
            log_path: self.log_path.clone(),
            log_format: self.log_format.clone(),
            pod_uid: self.pod_uid.clone(),
            pod_name: self.pod_name.clone(),
            namespace: self.namespace.clone(),
            node_name: self.node_name.clone(),
            deployment: self.deployment.clone(),
            workload_kind: self.workload_kind.clone(),
            container_id: self.container_id.clone(),
            container_name: self.container_name.clone(),
            runtime_process: self.runtime_process,
        }
    }

    /// The label under `key`.
    pub fn label<'a>(&'a self, key: &str) -> (r: Option<&'a str>)
        ensures
            opt_str_view(r) == self@.label(key@),
    {
        match self.labels.get(key) {
            Some(v) => Some(v.as_str()),
            None => None,
        }
    }

    /// The workload's identity, the same across restarts and rescheduling:
    /// - Kubernetes: `namespace/deployment/container_name`
    /// - Compose: `project/service`
    /// - Swarm: `stack/service`
    /// - Kamal: `service-destination`, whatever the role
    /// - anything else: the container's name
    pub fn stable_id(&self) -> (r: String)
        ensures
            r@ == self@.stable_id(),
    {
        if !self.namespace.as_str().is_empty() && !self.deployment.as_str().is_empty() {
            let name = if !self.container_name.as_str().is_empty() {
                self.container_name.as_str()
            } else {
                self.name.as_str()
            };
            return join3(self.namespace.as_str(), "/", self.deployment.as_str(), name);
        }
        if let Some(service) = self.label("com.docker.compose.service") {
            return match self.label("com.docker.compose.project") {
                Some(project) => join2(project, "/", service),
                None => service.to_owned(),
            };
        }
        if let Some(service) = self.label("com.docker.swarm.service.name") {
            return match self.label("com.docker.stack.namespace") {
                Some(stack) => join2(stack, "/", service),
                None => service.to_owned(),
            };
        }
        if let Some(service) = self.label("service") {
            if let Some(destination) = self.label("destination") {
                return join2(service, "-", destination);
            }
        }
        self.name.clone()
    }

    /// The identity of one replica. It extends the workload's identity with what
    /// tells replicas apart and survives a redeploy:
    /// - StatefulSet: the ordinal in the pod's name
    /// - DaemonSet: the node
    /// - other Kubernetes pods are fungible and have none
    /// - Compose: the container number, or the number that ends the name
    /// - Swarm: the slot in the task's name
    /// - Kamal: the role, as `service-role-destination`
    pub fn stable_instance_id(&self) -> (r: String)
        ensures
            r@ == self@.stable_instance_id(),
    {
        if !self.namespace.as_str().is_empty() && !self.deployment.as_str().is_empty() {
            if str_eq(self.workload_kind.as_str(), "statefulset") {
                return match pod_ordinal(self.pod_name.as_str(), self.deployment.as_str()) {
                    Some(ordinal) => join2(self.stable_id().as_str(), "/", ordinal.as_str()),
                    None => self.stable_id(),
                };
            }
            if str_eq(self.workload_kind.as_str(), "daemonset")
                && !self.node_name.as_str().is_empty() {
                return join2(self.stable_id().as_str(), "/", self.node_name.as_str());
            }
            return self.stable_id();
        }
        if let Some(project) = self.label("com.docker.compose.project") {
            if let Some(service) = self.label("com.docker.compose.service") {
                return match self.compose_replica(project, service) {
                    Some(ordinal) => join3(project, "/", service, ordinal.as_str()),
                    None => join2(project, "/", service),
                };
            }
        }
        if let Some(service) = self.label("com.docker.swarm.service.name") {
            let slot = match self.label("com.docker.swarm.task.name") {
                Some(task) => swarm_slot(task),
                None => None,
            };
            let workload = match self.label("com.docker.stack.namespace") {
                Some(stack) => join2(stack, "/", service),
                None => service.to_owned(),
            };
            return match slot {
                Some(slot) => join2(workload.as_str(), "/", slot.as_str()),
                None => workload,
            };
        }
        if let Some(service) = self.label("service") {
            if let Some(destination) = self.label("destination") {
                return match self.label("role") {
                    Some(role) => join3(service, "-", role, destination),
                    None => join2(service, "-", destination),
                };
            }
        }
        self.name.clone()
    }

    fn compose_replica(&self, project: &str, service: &str) -> (r: Option<String>)
        ensures
            opt_view(r) == self@.compose_replica(project@, service@),
    {
        if let Some(number) = self.label("com.docker.compose.container-number") {
            if is_numeric(number) {
                return Some(number.to_owned());
            }
        }
        compose_ordinal(self.name.as_str(), project, service)
    }

    /// The atoms that a selector can speak of.
    pub fn identifier_set(&self) -> (r: StrMap<String>)
        ensures
            texts(r@) == self@.identifier_set(),
            r.distinct(),
    {
        let mut atoms: StrMap<String> = StrMap::new();
        assert(texts(atoms@) =~= Map::<Seq<char>, Seq<char>>::empty());
        if self.explicit_service() {
            put_atom(&mut atoms, "service_name", Some(self.service_name.as_str()));
        }
        let service = self.label("service");
        let destination = self.label("destination");
        if service.is_some() && destination.is_some() {
            put_atom(&mut atoms, "kamal.service", service);
            put_atom(&mut atoms, "kamal.destination", destination);
            put_atom(&mut atoms, "kamal.role", self.label("role"));
        }
        put_atom(&mut atoms, "compose.project", self.label("com.docker.compose.project"));
        put_atom(&mut atoms, "compose.service", self.label("com.docker.compose.service"));
        put_atom(&mut atoms, "swarm.stack", self.label("com.docker.stack.namespace"));
        put_atom(&mut atoms, "swarm.service", self.label("com.docker.swarm.service.name"));
        put_atom(&mut atoms, "k8s.namespace", if_non_empty(self.namespace.as_str()));
        put_atom(&mut atoms, "k8s.workload", if_non_empty(self.deployment.as_str()));
        put_atom(&mut atoms, "k8s.container", if_non_empty(self.container_name.as_str()));
        let repo = image_repo(self.image.as_str());
        match repo {
            Some(ref repo) => {
                put_atom(&mut atoms, "image.repo", Some(repo.as_str()));
            },
            None => {},
        }
        put_atom(&mut atoms, "container.name", if_non_empty(self.name.as_str()));
        atoms
    }

    /// Whether the container has a service name, explicit or derived.
    pub fn has_service_name(&self) -> (r: bool)
        ensures
            r == (self@.service_name.len() > 0),
    {
        !self.service_name.as_str().is_empty()
    }

    /// Whether the container explicitly opted into collection.
    pub fn explicit_service(&self) -> (r: bool)
        ensures
            r == self@.explicit_service(),
    {
        self.service_name_explicit && self.has_service_name()
    }

    /// How the container's log is read, given which regular files the host holds.
    pub fn determine_access_method(&self, files: &LocalFiles) -> (r: AccessMethod)
        ensures
            r == self@.access_method(files@),
    {
        let runtime = self.runtime.as_str();
        if str_eq(runtime, "kubernetes") {
            AccessMethod::Kubernetes
        } else if str_eq(runtime, "docker") {
            if !self.log_path.as_str().is_empty() && files.is_file(self.log_path.as_str()) {
                AccessMethod::DockerJsonFile
            } else {
                AccessMethod::DockerApi
            }
        } else if str_eq(runtime, "containerd") || str_eq(runtime, "cri-o") || str_eq(
            runtime,
            "podman",
        ) || !self.log_path.as_str().is_empty() {
            AccessMethod::File
        } else {
            AccessMethod::DockerApi
        }
    }

    /// What the reader of that access method opens.
    pub fn log_locator(&self, files: &LocalFiles) -> (r: String)
        ensures
            r@ == self@.log_locator(files@),
    {
        match self.determine_access_method(files) {
            AccessMethod::DockerApi => if self.container_id.as_str().is_empty() {
                self.name.clone()
            } else {
                self.container_id.clone()
            },
            _ => self.log_path.clone(),
        }
    }
}

// ---------------------------------------------------------------------------
// Laws
// ---------------------------------------------------------------------------

/// Whether the identity of a workload comes from its orchestrator rather than
/// from the container's own name.
pub open spec fn orchestrated(c: ContainerView) -> bool {
    ||| c.in_workload() && c.container_name.len() > 0
    ||| !c.in_workload() && c.label("com.docker.compose.service"@) is Some
    ||| !c.in_workload() && c.label("com.docker.swarm.service.name"@) is Some
    ||| !c.in_workload() && c.label("service"@) is Some && c.label("destination"@) is Some
}

/// A redeploy does not move a workload's identity: a container that keeps what
/// its orchestrator said of it keeps its stable id, whatever became of its
/// runtime ids, its name, its image and its pod.
pub proof fn stable_id_survives_redeploy(before: ContainerView, after: ContainerView)
    requires
        orchestrated(before),
        before.namespace == after.namespace,
        before.deployment == after.deployment,
        before.container_name == after.container_name,
        before.labels == after.labels,
    ensures
        before.stable_id() == after.stable_id(),
{
}

/// A redeploy does not move a replica's identity either: nothing that changes
/// with the runtime (container id, pod uid, image, state, log path) feeds it.
pub proof fn stable_instance_id_ignores_runtime_handles(
    before: ContainerView,
    after: ContainerView,
)
    requires
        before.namespace == after.namespace,
        before.deployment == after.deployment,
        before.workload_kind == after.workload_kind,
        before.container_name == after.container_name,
        before.name == after.name,
        before.pod_name == after.pod_name,
        before.node_name == after.node_name,
        before.labels == after.labels,
    ensures
        before.stable_instance_id() == after.stable_instance_id(),
{
}

/// Kamal puts the deployed revision into the container's name. Neither the
/// workload's identity nor the replica's depends on it.
pub proof fn kamal_identity_ignores_name(before: ContainerView, after: ContainerView)
    requires
        before.labels == after.labels,
        !before.in_workload(),
        !after.in_workload(),
        before.label("com.docker.compose.service"@) is None,
        before.label("com.docker.swarm.service.name"@) is None,
        before.label("service"@) is Some,
        before.label("destination"@) is Some,
    ensures
        before.stable_id() == after.stable_id(),
        before.stable_instance_id() == after.stable_instance_id(),
{
}

/// Two roles of one Kamal service are one workload and two instances.
pub proof fn kamal_roles_share_the_workload(a: ContainerView, b: ContainerView)
    requires
        !a.in_workload(),
        !b.in_workload(),
        a.label("com.docker.compose.service"@) is None,
        b.label("com.docker.compose.service"@) is None,
        a.label("com.docker.swarm.service.name"@) is None,
        b.label("com.docker.swarm.service.name"@) is None,
        a.label("service"@) is Some,
        a.label("destination"@) is Some,
        a.label("service"@) == b.label("service"@),
        a.label("destination"@) == b.label("destination"@),
        a.label("role"@) is Some,
        b.label("role"@) is Some,
        a.label("role"@) != b.label("role"@),
    ensures
        a.stable_id() == b.stable_id(),
        a.stable_instance_id() != b.stable_instance_id(),
{
    let head = a.label("service"@)->0 + "-"@;
    let tail = "-"@ + a.label("destination"@)->0;
    let x = a.label("role"@)->0;
    let y = b.label("role"@)->0;
    assert(a.stable_instance_id() =~= head + x + tail);
    assert(b.stable_instance_id() =~= head + y + tail);
    lemma_middle_differs(head, x, y, tail);
}

/// Texts that differ only in the middle are different.
proof fn lemma_middle_differs(head: Seq<char>, x: Seq<char>, y: Seq<char>, tail: Seq<char>)
    requires
        x != y,
    ensures
        head + x + tail != head + y + tail,
{
    if head + x + tail == head + y + tail {
        let s = head + x + tail;
        assert(s.len() == head.len() + x.len() + tail.len());
        assert((head + y + tail).len() == head.len() + y.len() + tail.len());
        assert(x =~= s.subrange(head.len() as int, head.len() + x.len() as int));
        assert(y =~= (head + y + tail).subrange(head.len() as int, head.len() + y.len() as int));
    }
}

/// Containers of one pod never share an identity, of the workload or of the
/// replica: a sidecar is told from the application by its name in the pod spec.
pub proof fn sidecars_stay_apart(a: ContainerView, b: ContainerView)
    requires
        a.in_workload(),
        a.namespace == b.namespace,
        a.deployment == b.deployment,
        a.workload_kind == b.workload_kind,
        a.pod_name == b.pod_name,
        a.node_name == b.node_name,
        a.spec_name() != b.spec_name(),
    ensures
        a.stable_id() != b.stable_id(),
        a.stable_instance_id() != b.stable_instance_id(),
{
    let head = a.namespace + "/"@ + a.deployment + "/"@;
    lemma_middle_differs(head, a.spec_name(), b.spec_name(), seq![]);
    assert(a.stable_id() =~= head + a.spec_name() + seq![]);
    assert(b.stable_id() =~= head + b.spec_name() + seq![]);
    if a.workload_kind == "statefulset"@ && pod_ordinal_of(a.pod_name, a.deployment) is Some {
        let tail = "/"@ + pod_ordinal_of(a.pod_name, a.deployment)->0;
        lemma_middle_differs(head, a.spec_name(), b.spec_name(), tail);
        assert(a.stable_instance_id() =~= head + a.spec_name() + tail);
        assert(b.stable_instance_id() =~= head + b.spec_name() + tail);
    } else if a.workload_kind != "statefulset"@ && a.workload_kind == "daemonset"@
        && a.node_name.len() > 0 {
        let tail = "/"@ + a.node_name;
        lemma_middle_differs(head, a.spec_name(), b.spec_name(), tail);
        assert(a.stable_instance_id() =~= head + a.spec_name() + tail);
        assert(b.stable_instance_id() =~= head + b.spec_name() + tail);
    }
}

/// Within Kubernetes, and within Compose where the project is known, a
/// replica's identity begins with its workload's.
pub proof fn instance_extends_workload(c: ContainerView)
    requires
        c.in_workload() || (c.label("com.docker.compose.project"@) is Some && c.label(
            "com.docker.compose.service"@,
        ) is Some),
    ensures
        c.stable_id().is_prefix_of(c.stable_instance_id()),
{
    let s = c.stable_id();
    let i = c.stable_instance_id();
    assert(i.subrange(0, s.len() as int) =~= s);
}

/// The atoms of a container say nothing of one instance: they depend only on
/// the service name, the labels, the Kubernetes workload, the image without its
/// tag, and the name.
pub proof fn atoms_ignore_instance_handles(a: ContainerView, b: ContainerView)
    requires
        a.explicit_service() == b.explicit_service(),
        a.service_name == b.service_name,
        a.labels == b.labels,
        a.namespace == b.namespace,
        a.deployment == b.deployment,
        a.container_name == b.container_name,
        image_repo_of(a.image) == image_repo_of(b.image),
        a.name == b.name,
    ensures
        a.identifier_set() == b.identifier_set(),
{
}

/// A container without consent has no service name among its atoms.
pub proof fn service_name_atom_needs_consent(c: ContainerView)
    requires
        !c.explicit_service(),
    ensures
        !c.identifier_set().contains_key("service_name"@),
{
    reveal_strlit("service_name");
    reveal_strlit("kamal.service");
    reveal_strlit("kamal.destination");
    reveal_strlit("kamal.role");
    reveal_strlit("compose.project");
    reveal_strlit("compose.service");
    reveal_strlit("swarm.stack");
    reveal_strlit("swarm.service");
    reveal_strlit("k8s.namespace");
    reveal_strlit("k8s.workload");
    reveal_strlit("k8s.container");
    reveal_strlit("image.repo");
    reveal_strlit("container.name");
    let k = "service_name"@;
    assert(k[0] == 's' && k[1] == 'e');
    assert("kamal.service"@[0] == 'k');
    assert("kamal.destination"@[0] == 'k');
    assert("kamal.role"@[0] == 'k');
    assert("compose.project"@[0] == 'c');
    assert("compose.service"@[0] == 'c');
    assert("swarm.stack"@[1] == 'w');
    assert("swarm.service"@[1] == 'w');
    assert("k8s.namespace"@[0] == 'k');
    assert("k8s.workload"@[0] == 'k');
    assert("k8s.container"@[0] == 'k');
    assert("image.repo"@[0] == 'i');
    assert("container.name"@[0] == 'c');
}

} // verus!
