//! What the agent finds out about its host when it starts.
use vstd::prelude::*;
use vstd::string::*;

use crate::strmap::{text_at, StrMap};
use crate::text::{
    concat, contains, lines, lines_of, occurs, opt_str_view, opt_view, parse_u64, parsed,
    split_whitespace, strip_prefix, strs, words,
};

verus! {

/// How the agent itself is run.
#[derive(Debug, PartialEq, Eq)]
pub struct RuntimeContext {
    pub in_container: bool,
    pub container_runtime: Option<String>,
    pub deployment_type: String,
    pub namespace: Option<String>,
    pub deployment: Option<String>,
    pub pod_name: Option<String>,
    pub node_name: Option<String>,
    pub container: Option<String>,
}

/// What the host is.
#[derive(Debug)]
pub struct Metadata {
    pub hostname: String,
    pub os: String,
    pub os_version: String,
    pub architecture: String,
    pub cpu_cores: usize,
    pub memory_mb: u64,
    pub in_container: bool,
    pub collected_at: String,
}

// ---------------------------------------------------------------------------
// The version of the system
// ---------------------------------------------------------------------------

/// A text without the quotes at its start.
pub open spec fn unquoted_start(s: Seq<char>) -> Seq<char>
    decreases s.len(),
{
    if s.len() > 0 && s[0] == '"' {
        unquoted_start(s.skip(1))
    } else {
        s
    }
}

/// A text without the quotes at its end.
pub open spec fn unquoted_end(s: Seq<char>) -> Seq<char>
    decreases s.len(),
{
    if s.len() > 0 && s.last() == '"' {
        unquoted_end(s.drop_last())
    } else {
        s
    }
}

/// A text without the quotes round it.
pub open spec fn unquoted(s: Seq<char>) -> Seq<char> {
    unquoted_end(unquoted_start(s))
}

fn trim_quotes<'a>(s: &'a str) -> (r: &'a str)
    ensures
        r@ == unquoted(s@),
{
    let n = s.unicode_len();
    let mut start: usize = 0;
    assert(s@.skip(0) =~= s@);
    while start < n && s.get_char(start) == '"'
        invariant
            start <= n,
            n == s@.len(),
            unquoted_start(s@.skip(start as int)) == unquoted_start(s@),
        decreases n - start,
    {
        assert(s@.skip(start as int).skip(1) =~= s@.skip(start + 1));
        start = start + 1;
    }
    let ghost rest = s@.skip(start as int);
    let mut end: usize = n;
    assert(s@.subrange(start as int, end as int) =~= rest);
    while end > start && s.get_char(end - 1) == '"'
        invariant
            start <= end <= n,
            n == s@.len(),
            unquoted_end(s@.subrange(start as int, end as int)) == unquoted_end(rest),
        decreases end - start,
    {
        assert(s@.subrange(start as int, end as int).drop_last() =~= s@.subrange(
            start as int,
            end - 1,
        ));
        end = end - 1;
    }
    s.substring_char(start, end)
}

/// What follows `PRETTY_NAME=` on the first line that begins with it.
pub open spec fn pretty_name(rows: Seq<Seq<char>>) -> Option<Seq<char>>
    decreases rows.len(),
{
    if rows.len() == 0 {
        None
    } else if "PRETTY_NAME="@.is_prefix_of(rows[0]) {
        Some(unquoted(rows[0].skip("PRETTY_NAME="@.len() as int)))
    } else {
        pretty_name(rows.skip(1))
    }
}

/// The version of the system: what the release file calls it, else what a Mac
/// says of itself, else unknown.
pub open spec fn os_version(release: Option<Seq<char>>, product: Option<Seq<char>>) -> Seq<char> {
    if release is Some && pretty_name(lines(release->0)) is Some {
        pretty_name(lines(release->0))->0
    } else if product is Some && product->0.len() > 0 {
        "macOS "@ + product->0
    } else {
        "unknown"@
    }
}

/// The version of the system, from its release file and from what a Mac says of
/// itself.
pub fn read_os_version(os_release: Option<&str>, product_version: Option<&str>) -> (r: String)
    ensures
        r@ == os_version(opt_str_view(os_release), opt_str_view(product_version)),
{
    if let Some(content) = os_release {
        let rows = lines_of(content);
        let ghost all = lines(content@);
        let mut i: usize = 0;
        assert(all.skip(0) =~= all);
        while i < rows.len()
            invariant
                i <= rows@.len(),
                strs(rows@) == all,
                all == lines(content@),
                os_release == Some(content),
                pretty_name(all.skip(i as int)) == pretty_name(all),
            decreases rows.len() - i,
        {
            assert(all.skip(i as int)[0] == rows@[i as int]@);
            assert(all.skip(i as int).skip(1) =~= all.skip(i + 1));
            if let Some(version) = strip_prefix(rows[i], "PRETTY_NAME=") {
                return trim_quotes(version).to_owned();
            }
            i = i + 1;
        }
    }
    match product_version {
        Some(version) => if version.is_empty() {
            "unknown".to_owned()
        } else {
            concat("macOS ", version)
        },
        None => "unknown".to_owned(),
    }
}

// ---------------------------------------------------------------------------
// Memory
// ---------------------------------------------------------------------------

/// The number of KiB that a line gives as the whole memory, if it does.
pub open spec fn mem_total(row: Seq<char>) -> Option<nat> {
    if "MemTotal:"@.is_prefix_of(row) {
        let parts = words(row.skip("MemTotal:"@.len() as int));
        if parts.len() > 0 {
            parsed(parts[0], 10, u64::MAX as nat)
        } else {
            None
        }
    } else {
        None
    }
}

/// The first number of KiB that a line gives as the whole memory.
pub open spec fn first_mem_total(rows: Seq<Seq<char>>) -> Option<nat>
    decreases rows.len(),
{
    if rows.len() == 0 {
        None
    } else if mem_total(rows[0]) is Some {
        mem_total(rows[0])
    } else {
        first_mem_total(rows.skip(1))
    }
}

/// The whole memory in MiB: as the kernel's table gives it, else from a number of
/// bytes, else nothing.
pub open spec fn memory_mb(meminfo: Option<Seq<char>>, bytes: Option<u64>) -> nat {
    if meminfo is Some && first_mem_total(lines(meminfo->0)) is Some {
        first_mem_total(lines(meminfo->0))->0 / 1024
    } else if bytes is Some {
        bytes->0 as nat / 1048576
    } else {
        0
    }
}

fn mem_total_of(row: &str) -> (r: Option<u64>)
    ensures
        match r {
            Some(n) => mem_total(row@) == Some(n as nat),
            None => mem_total(row@) is None,
        },
{
    match strip_prefix(row, "MemTotal:") {
        Some(rest) => {
            let parts = split_whitespace(rest);
            if parts.len() > 0 {
                assert(strs(parts@)[0] == parts@[0]@);
                parse_u64(parts[0])
            } else {
                None
            }
        },
        None => None,
    }
}

/// The whole memory in MiB, from the kernel's table or from a number of bytes.
pub fn read_memory_mb(meminfo: Option<&str>, total_bytes: Option<u64>) -> (r: u64)
    ensures
        r == memory_mb(opt_str_view(meminfo), total_bytes),
{
    if let Some(content) = meminfo {
        let rows = lines_of(content);
        let ghost all = lines(content@);
        let mut i: usize = 0;
        assert(all.skip(0) =~= all);
        while i < rows.len()
            invariant
                i <= rows@.len(),
                strs(rows@) == all,
                all == lines(content@),
                meminfo == Some(content),
                first_mem_total(all.skip(i as int)) == first_mem_total(all),
            decreases rows.len() - i,
        {
            assert(all.skip(i as int)[0] == rows@[i as int]@);
            assert(all.skip(i as int).skip(1) =~= all.skip(i + 1));
            if let Some(kb) = mem_total_of(rows[i]) {
                return kb / 1024;
            }
            i = i + 1;
        }
    }
    match total_bytes {
        Some(bytes) => bytes / 1048576,
        None => 0,
    }
}

// ---------------------------------------------------------------------------
// Containers
// ---------------------------------------------------------------------------

/// Traces that a container leaves: Docker's marker file, the control groups of
/// the first process, and the token of a Kubernetes service account.
pub struct ContainerTraces<'a> {
    pub dockerenv: bool,
    pub cgroup: Option<&'a str>,
    pub service_account: bool,
}

/// The runtime that traces speak of.
pub open spec fn runtime_of(traces: ContainerTraces) -> Option<Seq<char>> {
    let cgroup = opt_str_view(traces.cgroup);
    if traces.dockerenv || (cgroup is Some && occurs(cgroup->0, "docker"@)) {
        Some("docker"@)
    } else if (cgroup is Some && (occurs(cgroup->0, "containerd"@) || occurs(
        cgroup->0,
        "kubepods"@,
    ))) || traces.service_account {
        Some("containerd"@)
    } else {
        None
    }
}

/// The runtime that traces speak of.
pub fn detect_container_runtime(traces: &ContainerTraces<'_>) -> (r: Option<String>)
    ensures
        opt_view(r) == runtime_of(*traces),
{
    if traces.dockerenv {
        return Some("docker".to_owned());
    }
    if let Some(content) = traces.cgroup {
        if contains(content, "docker") {
            return Some("docker".to_owned());
        }
        if contains(content, "containerd") || contains(content, "kubepods") {
            return Some("containerd".to_owned());
        }
    }
    if traces.service_account {
        return Some("containerd".to_owned());
    }
    None
}

/// Whether the agent runs in a container.
pub fn detect_container(traces: &ContainerTraces<'_>) -> (r: bool)
    ensures
        r == (runtime_of(*traces) is Some || traces.service_account),
{
    detect_container_runtime(traces).is_some() || traces.service_account
}

/// What is said of the agent's own run.
pub struct ContextView {
    pub in_container: bool,
    pub container_runtime: Option<Seq<char>>,
    pub deployment_type: Seq<char>,
    pub namespace: Option<Seq<char>>,
    pub deployment: Option<Seq<char>>,
    pub pod_name: Option<Seq<char>>,
    pub node_name: Option<Seq<char>>,
    pub container: Option<Seq<char>>,
}

impl View for RuntimeContext {
    type V = ContextView;

    open spec fn view(&self) -> ContextView {
        ContextView {
            in_container: self.in_container,
            container_runtime: opt_view(self.container_runtime),
            deployment_type: self.deployment_type@,
            namespace: opt_view(self.namespace),
            deployment: opt_view(self.deployment),
            pod_name: opt_view(self.pod_name),
            node_name: opt_view(self.node_name),
            container: opt_view(self.container),
        }
    }
}

/// How the agent is run, as parts of it say: Kubernetes before containers before
/// hosts, and the names from the environment.
pub open spec fn context_of(
    in_container: bool,
    container_runtime: Option<Seq<char>>,
    in_kubernetes: bool,
    env: Map<Seq<char>, String>,
) -> ContextView {
    ContextView {
        in_container,
        container_runtime,
        deployment_type: if in_kubernetes {
            "kubernetes"@
        } else if in_container {
            "container"@
        } else {
            "host"@
        },
        namespace: text_at(env, "POD_NAMESPACE"@),
        deployment: text_at(env, "DEPLOYMENT_NAME"@),
        pod_name: text_at(env, "POD_NAME"@),
        node_name: text_at(env, "NODE_NAME"@),
        container: text_at(env, "CONTAINER_NAME"@),
    }
}

fn env_var(env: &StrMap<String>, key: &str) -> (r: Option<String>)
    ensures
        opt_view(r) == text_at(env@, key@),
{
    match env.get(key) {
        Some(value) => Some(value.clone()),
        None => None,
    }
}

/// How the agent is run, put together from its parts. `env` holds the variables
/// that are set.
pub fn runtime_context_from_parts(
    in_container: bool,
    container_runtime: Option<String>,
    in_kubernetes: bool,
    env: &StrMap<String>,
) -> (r: RuntimeContext)
    ensures
        r@ == context_of(in_container, opt_view(container_runtime), in_kubernetes, env@),
{
    RuntimeContext {
        in_container,
        container_runtime,
        deployment_type: if in_kubernetes {
            "kubernetes".to_owned()
        } else if in_container {
            "container".to_owned()
        } else {
            "host".to_owned()
        },
        namespace: env_var(env, "POD_NAMESPACE"),
        deployment: env_var(env, "DEPLOYMENT_NAME"),
        pod_name: env_var(env, "POD_NAME"),
        node_name: env_var(env, "NODE_NAME"),
        container: env_var(env, "CONTAINER_NAME"),
    }
}

/// How the agent is run. It is on Kubernetes if it has a service account or if
/// the environment names the service.
pub fn collect_runtime_context(traces: &ContainerTraces<'_>, env: &StrMap<String>) -> (r:
    RuntimeContext)
    ensures
        r@ == context_of(
            runtime_of(*traces) is Some || traces.service_account,
            runtime_of(*traces),
            traces.service_account || env@.contains_key("KUBERNETES_SERVICE_HOST"@),
            env@,
        ),
{
    let in_kubernetes = traces.service_account || env.contains_key("KUBERNETES_SERVICE_HOST");
    runtime_context_from_parts(
        detect_container(traces),
        detect_container_runtime(traces),
        in_kubernetes,
        env,
    )
}

/// What was read of the host.
pub struct HostFacts<'a> {
    pub hostname: &'a str,
    pub os: &'a str,
    pub architecture: &'a str,
    pub os_release: Option<&'a str>,
    pub product_version: Option<&'a str>,
    /// How many threads can run at once, where that is known.
    pub parallelism: Option<usize>,
    pub meminfo: Option<&'a str>,
    pub total_bytes: Option<u64>,
    pub collected_at: &'a str,
}

/// What the host is, from what was read of it.
pub fn collect(facts: &HostFacts<'_>, traces: &ContainerTraces<'_>) -> (r: Metadata)
    ensures
        r.hostname@ == facts.hostname@,
        r.os@ == facts.os@,
        r.os_version@ == os_version(
            opt_str_view(facts.os_release),
            opt_str_view(facts.product_version),
        ),
        r.architecture@ == facts.architecture@,
        r.cpu_cores == match facts.parallelism {
            Some(n) => n,
            None => 1usize,
        },
        r.memory_mb == memory_mb(opt_str_view(facts.meminfo), facts.total_bytes),
        r.in_container == (runtime_of(*traces) is Some || traces.service_account),
        r.collected_at@ == facts.collected_at@,
{
    Metadata {
        hostname: facts.hostname.to_owned(),
        os: facts.os.to_owned(),
        os_version: read_os_version(facts.os_release, facts.product_version),
        architecture: facts.architecture.to_owned(),
        cpu_cores: match facts.parallelism {
            Some(n) => n,
            None => 1,
        },
        memory_mb: read_memory_mb(facts.meminfo, facts.total_bytes),
        in_container: detect_container(traces),
        collected_at: facts.collected_at.to_owned(),
    }
}

} // verus!
