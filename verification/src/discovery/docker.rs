//! Docker containers.
use vstd::prelude::*;
use vstd::string::*;
use vstd::utf8::{encode_utf8, is_char_boundary};

use crate::discovery::container::{Container, ContainerView};
use crate::discovery::files::{format_before_sampling, unsampled_format};
use crate::outline::{
    find_last, last_value, member_views, optional_text, outline, outlined, read_optional_text,
    Outline, OutlineView,
};
use crate::seqs::{kept, lemma_kept_step};
use crate::strmap::{clone_map, texts, StrMap};
use crate::text::{
    concat, opt_str_view, opt_view, starts_with, str_eq, strings, strip_prefix, strs, trim, trimmed,
};

verus! {

/// Where a Docker-compatible daemon is reached.
#[derive(Debug, PartialEq, Eq)]
pub enum DockerConnectionTarget {
    /// As the named environment variable says.
    Environment(&'static str),
    /// At this address.
    Host(String),
}

/// A text without the whitespace around it, unless nothing is left.
pub open spec fn some_text(s: Option<Seq<char>>) -> Option<Seq<char>> {
    match s {
        Some(t) => if trimmed(t).len() > 0 {
            Some(trimmed(t))
        } else {
            None
        },
        None => None,
    }
}

/// A text without the whitespace around it, unless nothing is left.
pub fn non_empty_str<'a>(value: &'a str) -> (r: Option<&'a str>)
    ensures
        opt_str_view(r) == some_text(Some(value@)),
{
    let trimmed = trim(value);
    if trimmed.is_empty() {
        None
    } else {
        Some(trimmed)
    }
}

/// The address that the daemon is reached at, where the environment does not
/// decide: the container host, then the CLI's context, then the default.
pub open spec fn chosen_host(
    container_host: Option<Seq<char>>,
    context_host: Option<Seq<char>>,
    default_host: Option<Seq<char>>,
) -> Option<Seq<char>> {
    if some_text(container_host) is Some {
        some_text(container_host)
    } else if some_text(context_host) is Some {
        some_text(context_host)
    } else {
        some_text(default_host)
    }
}

fn text_of<'a>(value: Option<&'a str>) -> (r: Option<&'a str>)
    ensures
        opt_str_view(r) == some_text(opt_str_view(value)),
{
    match value {
        Some(v) => non_empty_str(v),
        None => None,
    }
}

/// Decides where the Docker-compatible daemon is reached.
pub fn resolve_docker_connection_target(
    docker_host: Option<&str>,
    container_host: Option<&str>,
    context_host: Option<&str>,
    default_host: Option<&str>,
) -> (r: Option<DockerConnectionTarget>)
    ensures
        ({
            let host = chosen_host(
                opt_str_view(container_host),
                opt_str_view(context_host),
                opt_str_view(default_host),
            );
            if some_text(opt_str_view(docker_host)) is Some {
                r is Some && r->0 is Environment && r->0->Environment_0@ == "DOCKER_HOST"@
            } else if host is Some {
                r is Some && r->0 is Host && r->0->Host_0@ == host->0
            } else {
                r is None
            }
        }),
{
    if text_of(docker_host).is_some() {
        return Some(DockerConnectionTarget::Environment("DOCKER_HOST"));
    }
    if let Some(host) = text_of(container_host) {
        return Some(DockerConnectionTarget::Host(host.to_owned()));
    }
    if let Some(host) = text_of(context_host) {
        return Some(DockerConnectionTarget::Host(host.to_owned()));
    }
    match text_of(default_host) {
        Some(host) => Some(DockerConnectionTarget::Host(host.to_owned())),
        None => None,
    }
}

/// How an address is connected to.
#[derive(Debug, Clone, Copy, PartialEq, Eq, Structural)]
pub enum HostKind {
    Socket,
    Http,
    Unsupported,
}

/// How an address is connected to: by its scheme, a bare path being a socket.
pub fn host_kind(host: &str) -> (r: HostKind)
    ensures
        ({
            let h = trimmed(host@);
            if "unix://"@.is_prefix_of(h) || "npipe://"@.is_prefix_of(h) || "/"@.is_prefix_of(h) {
                r == HostKind::Socket
            } else if "tcp://"@.is_prefix_of(h) || "http://"@.is_prefix_of(h) {
                r == HostKind::Http
            } else {
                r == HostKind::Unsupported
            }
        }),
{
    let h = trim(host);
    if starts_with(h, "unix://") || starts_with(h, "npipe://") || starts_with(h, "/") {
        HostKind::Socket
    } else if starts_with(h, "tcp://") || starts_with(h, "http://") {
        HostKind::Http
    } else {
        HostKind::Unsupported
    }
}

// ---------------------------------------------------------------------------
// The CLI's context
// ---------------------------------------------------------------------------

/// The context that the CLI's configuration names.
pub open spec fn context_in(config: OutlineView) -> Option<Seq<char>> {
    let fields = seq!["currentContext"@];
    if !config.is_record(fields) {
        None
    } else {
        match optional_text(config.field(fields, 0)) {
            Some(name) => some_text(name),
            None => None,
        }
    }
}

/// The context that the CLI's configuration names.
pub fn current_context(config: &Outline) -> (r: Option<String>)
    ensures
        opt_view(r) == context_in(config@),
{
    let fields: Vec<&str> = vec!["currentContext"];
    assert(strs(fields@) =~= seq!["currentContext"@]);
    if !config.is_record(&fields) {
        return None;
    }
    match read_optional_text(config.field(&fields, 0)) {
        Some(Some(name)) => match non_empty_str(name) {
            Some(name) => Some(name.to_owned()),
            None => None,
        },
        _ => None,
    }
}

/// The context that the text of the CLI's configuration names.
pub fn parse_current_context(config_json: &str) -> (r: Option<String>)
    ensures
        opt_view(r) == context_in(outlined(encode_utf8(config_json@), 1)),
{
    current_context(&outline(config_json.as_bytes(), 1))
}

/// Whether a value describes an endpoint: a record whose host, if it has one, is a
/// text.
pub open spec fn endpoint(value: OutlineView) -> bool {
    value.is_record(seq!["Host"@]) && optional_text(value.field(seq!["Host"@], 0)) is Some
}

/// The host of the `docker` endpoint of a context's description, where the
/// description is of the context of that name.
pub open spec fn context_host_in(meta: OutlineView, context_name: Seq<char>) -> Option<Seq<char>> {
    let fields = seq!["Name"@, "Endpoints"@];
    match (meta.field(fields, 0), meta.field(fields, 1)) {
        (Some(OutlineView::Text(name)), Some(OutlineView::Members(endpoints))) => {
            if !meta.is_record(fields) || name != context_name || !(forall|i: int|
                0 <= i < endpoints.len() ==> endpoint((#[trigger] endpoints[i]).1)) {
                None
            } else {
                match last_value(endpoints, "docker"@) {
                    Some(docker) => some_text(optional_text(docker.field(seq!["Host"@], 0))->0),
                    None => None,
                }
            }
        },
        _ => None,
    }
}

fn endpoint_host<'a>(value: &'a Outline) -> (r: Option<Option<&'a str>>)
    ensures
        match r {
            Some(host) => endpoint(value@) && optional_text(value@.field(seq!["Host"@], 0)) == Some(
                opt_str_view(host),
            ),
            None => !endpoint(value@),
        },
{
    let fields: Vec<&str> = vec!["Host"];
    assert(strs(fields@) =~= seq!["Host"@]);
    if !value.is_record(&fields) {
        return None;
    }
    read_optional_text(value.field(&fields, 0))
}

/// The host of the `docker` endpoint of the named context, in the description of
/// a context.
pub fn context_host(meta: &Outline, context_name: &str) -> (r: Option<String>)
    ensures
        opt_view(r) == context_host_in(meta@, context_name@),
{
    let fields: Vec<&str> = vec!["Name", "Endpoints"];
    assert(strs(fields@) =~= seq!["Name"@, "Endpoints"@]);
    if !meta.is_record(&fields) {
        return None;
    }
    let name = match read_optional_text(meta.field(&fields, 0)) {
        Some(Some(name)) => name,
        _ => {
            return None;
        },
    };
    if !str_eq(name, context_name) {
        return None;
    }
    let endpoints = match meta.field(&fields, 1) {
        Some(endpoints) => endpoints,
        None => {
            return None;
        },
    };
    let members = match endpoints.members() {
        Some(members) => members,
        None => {
            return None;
        },
    };
    let ghost ms = member_views(members@);
    let mut i: usize = 0;
    while i < members.len()
        invariant
            i <= members@.len(),
            ms == member_views(members@),
            forall|j: int| 0 <= j < i ==> endpoint((#[trigger] ms[j]).1),
            meta@.field(seq!["Name"@, "Endpoints"@], 1) == Some(OutlineView::Members(ms)),
        decreases members.len() - i,
    {
        assert(ms[i as int].1 == members@[i as int].1@);
        if endpoint_host(&members[i].1).is_none() {
            assert(!endpoint(ms[i as int].1));
            return None;
        }
        i = i + 1;
    }
    match find_last(members, "docker") {
        Some(docker) => {
            proof {
                lemma_last_value(ms, "docker"@);
            }
            match endpoint_host(docker) {
                Some(Some(host)) => match non_empty_str(host) {
                    Some(host) => Some(host.to_owned()),
                    None => None,
                },
                _ => None,
            }
        },
        None => None,
    }
}

/// What is found under a key is the value of a member.
proof fn lemma_last_value(members: Seq<(Seq<char>, OutlineView)>, key: Seq<char>)
    requires
        last_value(members, key) is Some,
    ensures
        exists|i: int|
            0 <= i < members.len() && (#[trigger] members[i]).1 == last_value(members, key)->0,
    decreases members.len(),
{
    if members.last().0 == key {
        assert(members[members.len() - 1].1 == last_value(members, key)->0);
    } else {
        lemma_last_value(members.drop_last(), key);
        let i = choose|i: int|
            0 <= i < members.len() - 1 && (#[trigger] members.drop_last()[i]).1 == last_value(
                members,
                key,
            )->0;
        assert(members[i].1 == last_value(members, key)->0);
    }
}

/// The host of the `docker` endpoint of the named context, in the text of the
/// description of a context.
pub fn docker_context_host_from_meta(meta_json: &str, context_name: &str) -> (r: Option<String>)
    ensures
        opt_view(r) == host_in_meta(meta_json@, context_name@),
{
    context_host(&outline(meta_json.as_bytes(), 3), context_name)
}

/// The host that the text of a context's description gives the named context.
pub open spec fn host_in_meta(meta_json: Seq<char>, context_name: Seq<char>) -> Option<Seq<char>> {
    context_host_in(outlined(encode_utf8(meta_json), 3), context_name)
}

/// The host that the first description of the named context gives it. A
/// description that cannot be read ends the search.
pub open spec fn first_host(metas: Seq<Option<String>>, context_name: Seq<char>) -> Option<Seq<char>>
    decreases metas.len(),
{
    if metas.len() == 0 || metas[0] is None {
        None
    } else {
        match host_in_meta(metas[0]->0@, context_name) {
            Some(host) => Some(host),
            None => first_host(metas.skip(1), context_name),
        }
    }
}

fn find_host(metas: &Vec<Option<String>>, name: &str) -> (r: Option<String>)
    ensures
        opt_view(r) == first_host(metas@, name@),
{
    let mut i: usize = 0;
    assert(metas@.skip(0) =~= metas@);
    while i < metas.len()
        invariant
            i <= metas@.len(),
            first_host(metas@, name@) == first_host(metas@.skip(i as int), name@),
        decreases metas.len() - i,
    {
        assert(metas@.skip(i as int)[0] == metas@[i as int]);
        assert(metas@.skip(i as int).skip(1) =~= metas@.skip(i + 1));
        match &metas[i] {
            Some(meta) => {
                let host = docker_context_host_from_meta(meta.as_str(), name);
                if host.is_some() {
                    return host;
                }
            },
            None => {
                return None;
            },
        }
        i = i + 1;
    }
    None
}

/// The host of the CLI's current context, from the text of the CLI's configuration
/// and those of the descriptions of contexts, in the order in which they are found.
/// The context called `default` has no description.
pub fn read_current_docker_context_host(config_json: Option<&str>, metas: &Vec<Option<String>>) -> (r:
    Option<String>)
    ensures
        opt_view(r) == match config_json {
            Some(text) => match context_in(outlined(encode_utf8(text@), 1)) {
                Some(name) => if name == "default"@ {
                    None
                } else {
                    first_host(metas@, name)
                },
                None => None,
            },
            None => None,
        },
{
    let text = match config_json {
        Some(text) => text,
        None => {
            return None;
        },
    };
    let name = match parse_current_context(text) {
        Some(name) => name,
        None => {
            return None;
        },
    };
    if str_eq(name.as_str(), "default") {
        return None;
    }
    find_host(metas, name.as_str())
}

/// Where a daemon listens by default: on Windows on its pipe, elsewhere on its
/// socket if that is there.
pub fn default_docker_host(windows: bool, socket_exists: bool) -> (r: Option<&'static str>)
    ensures
        opt_str_view(r) == if windows {
            Some("npipe:////./pipe/docker_engine"@)
        } else if socket_exists {
            Some("unix:///var/run/docker.sock"@)
        } else {
            None
        },
{
    if windows {
        Some("npipe:////./pipe/docker_engine")
    } else if socket_exists {
        Some("unix:///var/run/docker.sock")
    } else {
        None
    }
}

// ---------------------------------------------------------------------------
// Containers
// ---------------------------------------------------------------------------

/// The service name that labels give: Compose's, then Swarm's, then that of
/// Kubernetes, then the fallback.
pub open spec fn labelled_service(labels: Map<Seq<char>, Seq<char>>, fallback: Seq<char>) -> Seq<
    char,
> {
    if labels.contains_key("com.docker.compose.service"@) {
        labels["com.docker.compose.service"@]
    } else if labels.contains_key("com.docker.swarm.service.name"@) {
        labels["com.docker.swarm.service.name"@]
    } else if labels.contains_key("io.kubernetes.container.name"@) {
        labels["io.kubernetes.container.name"@]
    } else {
        fallback
    }
}

pub fn extract_service_name(labels: &StrMap<String>, fallback_name: &str) -> (r: String)
    ensures
        r@ == labelled_service(texts(labels@), fallback_name@),
{
    if let Some(name) = labels.get("com.docker.compose.service") {
        return name.clone();
    }
    if let Some(name) = labels.get("com.docker.swarm.service.name") {
        return name.clone();
    }
    if let Some(name) = labels.get("io.kubernetes.container.name") {
        return name.clone();
    }
    fallback_name.to_owned()
}

/// An environment entry that may be kept.
pub open spec fn own_entry(entry: Seq<char>) -> Option<Seq<char>> {
    if "LOGPACER_"@.is_prefix_of(entry) {
        Some(entry)
    } else {
        None
    }
}

/// The environment entries of the agent's own prefix; the others may hold
/// secrets and are not kept.
pub fn filter_env(env: &Vec<String>) -> (r: Vec<String>)
    ensures
        strings(r@) == kept(strings(env@), |e: Seq<char>| own_entry(e)),
{
    let mut out: Vec<String> = Vec::new();
    let ghost rows = strings(env@);
    let ghost f = |e: Seq<char>| own_entry(e);
    let mut i: usize = 0;
    assert(strings(out@) =~= kept(rows.take(0), f));
    while i < env.len()
        invariant
            i <= env@.len(),
            rows == strings(env@),
            f == (|e: Seq<char>| own_entry(e)),
            strings(out@) == kept(rows.take(i as int), f),
        decreases env.len() - i,
    {
        proof {
            lemma_kept_step(rows, f, i as int);
            assert(rows[i as int] == env@[i as int]@);
        }
        let ghost before = strings(out@);
        if starts_with(env[i].as_str(), "LOGPACER_") {
            out.push(env[i].clone());
            assert(strings(out@) =~= before.push(env@[i as int]@));
        }
        i = i + 1;
    }
    assert(rows.take(i as int) =~= rows);
    out
}

/// No entry of another prefix gets through, whatever the environment holds.
pub proof fn only_own_entries_are_kept(env: Seq<Seq<char>>, j: int)
    requires
        0 <= j < kept(env, |e: Seq<char>| own_entry(e)).len(),
    ensures
        "LOGPACER_"@.is_prefix_of(kept(env, |e: Seq<char>| own_entry(e))[j]),
        env.contains(kept(env, |e: Seq<char>| own_entry(e))[j]),
{
    let f = |e: Seq<char>| own_entry(e);
    crate::seqs::lemma_kept_from(env, f, j);
    let i = choose|i: int| 0 <= i < env.len() && f(#[trigger] env[i]) == Some(kept(env, f)[j]);
    assert(env[i] == kept(env, f)[j]);
}

/// The value of the first entry that sets the service name, unless it is empty.
pub open spec fn env_service(env: Seq<Seq<char>>) -> Option<Seq<char>>
    decreases env.len(),
{
    let prefix = "LOGPACER_SERVICE_NAME="@;
    if env.len() == 0 {
        None
    } else if prefix.is_prefix_of(env[0]) {
        if env[0].len() > prefix.len() {
            Some(env[0].skip(prefix.len() as int))
        } else {
            None
        }
    } else {
        env_service(env.skip(1))
    }
}

/// The explicit opt-in: a service name in the environment that is not empty.
pub fn explicit_service_name_from_env(env: &Vec<String>) -> (r: Option<String>)
    ensures
        opt_view(r) == env_service(strings(env@)),
{
    let ghost rows = strings(env@);
    let mut i: usize = 0;
    assert(rows.skip(0) =~= rows);
    while i < env.len()
        invariant
            i <= env@.len(),
            rows == strings(env@),
            env_service(rows) == env_service(rows.skip(i as int)),
        decreases env.len() - i,
    {
        assert(rows.skip(i as int)[0] == env@[i as int]@);
        assert(rows.skip(i as int).skip(1) =~= rows.skip(i + 1));
        if let Some(value) = strip_prefix(env[i].as_str(), "LOGPACER_SERVICE_NAME=") {
            if value.is_empty() {
                return None;
            }
            return Some(value.to_owned());
        }
        i = i + 1;
    }
    None
}

/// A container's name without the slash that Docker puts before it.
pub open spec fn cleaned_name(name: Seq<char>) -> Seq<char> {
    if "/"@.is_prefix_of(name) {
        name.skip("/"@.len() as int)
    } else {
        name
    }
}

pub fn clean_name(name: &str) -> (r: String)
    ensures
        r@ == cleaned_name(name@),
{
    match strip_prefix(name, "/") {
        Some(rest) => rest.to_owned(),
        None => name.to_owned(),
    }
}

/// A container as the daemon lists it.
pub struct DockerSummary {
    pub id: String,
    /// Its names, the first of which counts.
    pub names: Vec<String>,
    pub image: Option<String>,
    pub state: Option<String>,
    pub labels: StrMap<String>,
}

/// What inspecting a running container adds.
pub struct DockerDetail {
    pub log_path: String,
    pub env: Vec<String>,
}

/// Whether the id can be cut after twelve bytes.
pub open spec fn id_can_be_cut(id: Seq<char>) -> bool {
    encode_utf8(id).len() > 12 ==> is_char_boundary(encode_utf8(id), 12)
}

/// The first twelve bytes of an id.
pub fn short_id<'a>(id: &'a str) -> (r: &'a str)
    requires
        id_can_be_cut(id@),
    ensures
        encode_utf8(id@).len() > 12 ==> encode_utf8(r@) == encode_utf8(id@).subrange(0, 12),
        encode_utf8(id@).len() <= 12 ==> r@ == id@,
{
    if id.as_bytes().len() > 12 {
        id.split_at(12).0
    } else {
        id
    }
}

/// Whether a listed container is running, and so can be inspected.
pub fn is_running(raw: &DockerSummary) -> (r: bool)
    ensures
        r == (opt_view(raw.state) == Some("running"@)),
{
    match &raw.state {
        Some(state) => str_eq(state.as_str(), "running"),
        None => false,
    }
}

/// Where a running container's log lies: where the daemon says, else at the
/// json-file driver's place.
pub open spec fn docker_log_path(id: Seq<char>, log_path: Seq<char>) -> Seq<char> {
    if log_path.len() > 0 {
        log_path
    } else {
        "/var/lib/docker/containers/"@ + id + "/"@ + id + "-json.log"@
    }
}

/// The container that a listing and an inspection describe. Without an
/// inspection there is neither a log path nor an environment. `short` is the
/// shortened id.
pub open spec fn docker_container_view(
    raw: DockerSummary,
    detail: Option<DockerDetail>,
    short: Seq<char>,
) -> ContainerView {
    let labels = texts(raw.labels@);
    let name = cleaned_name(
        if raw.names@.len() > 0 {
            raw.names@[0]@
        } else {
            short
        },
    );
    let env = match detail {
        Some(d) => kept(strings(d.env@), |e: Seq<char>| own_entry(e)),
        None => seq![],
    };
    ContainerView {
        id: short,
        name,
        service_name: match env_service(env) {
            Some(s) => s,
            None => labelled_service(labels, name),
        },
        service_name_explicit: env_service(env) is Some,
        image: match raw.image {
            Some(image) => image@,
            None => "unknown"@,
        },
        state: match raw.state {
            Some(state) => state@,
            None => "unknown"@,
        },
        labels,
        env,
        runtime: "docker"@,
        log_path: match detail {
            Some(d) => docker_log_path(raw.id@, d.log_path@),
            None => seq![],
        },
        log_format: unsampled_format(labels),
        pod_uid: seq![],
        pod_name: seq![],
        namespace: seq![],
        node_name: seq![],
        deployment: seq![],
        workload_kind: seq![],
        container_id: raw.id@,
        container_name: seq![],
        runtime_process: None,
    }
}

fn or_unknown(s: &Option<String>) -> (r: String)
    ensures
        r@ == match *s {
            Some(t) => t@,
            None => "unknown"@,
        },
{
    match s {
        Some(t) => t.clone(),
        None => "unknown".to_owned(),
    }
}

/// The container that a listing and an inspection describe. The format is what
/// the labels say, until the log has been sampled.
pub fn docker_container(raw: &DockerSummary, detail: Option<&DockerDetail>) -> (r: Container)
    requires
        id_can_be_cut(raw.id@),
    ensures
        encode_utf8(raw.id@).len() > 12 ==> encode_utf8(r@.id) == encode_utf8(raw.id@).subrange(
            0,
            12,
        ),
        encode_utf8(raw.id@).len() <= 12 ==> r@.id == raw.id@,
        r@ == docker_container_view(
            *raw,
            match detail {
                Some(d) => Some(*d),
                None => None,
            },
            r@.id,
        ),
{
    let short = short_id(raw.id.as_str());
    let name = if raw.names.len() > 0 {
        clean_name(raw.names[0].as_str())
    } else {
        clean_name(short)
    };
    let mut log_path = String::new();
    let mut env: Vec<String> = Vec::new();
    assert(strings(env@) =~= seq![]);
    if let Some(d) = detail {
        log_path =
        if d.log_path.as_str().is_empty() {
            let dir = concat("/var/lib/docker/containers/", raw.id.as_str());
            let file = crate::text::join2(dir.as_str(), "/", raw.id.as_str());
            concat(file.as_str(), "-json.log")
        } else {
            d.log_path.clone()
        };
        env = filter_env(&d.env);
    }
    let env_name = explicit_service_name_from_env(&env);
    let service_name_explicit = env_name.is_some();
    let service_name = match env_name {
        Some(s) => s,
        None => extract_service_name(&raw.labels, name.as_str()),
    };
    let r = Container {
        id: short.to_owned(),
        name,
        service_name,
        service_name_explicit,
        image: or_unknown(&raw.image),
        state: or_unknown(&raw.state),
        labels: clone_map(&raw.labels),
        env,
        runtime: "docker".to_owned(),
        log_path,
        log_format: format_before_sampling(&raw.labels),
        pod_uid: String::new(),
        pod_name: String::new(),
        namespace: String::new(),
        node_name: String::new(),
        deployment: String::new(),
        workload_kind: String::new(),
        container_id: raw.id.clone(),
        container_name: String::new(),
        runtime_process: None,
    };
    assert(r@ =~= docker_container_view(
        *raw,
        match detail {
            Some(d) => Some(*d),
            None => None,
        },
        r@.id,
    ));
    r
}

/// Only the environment is consent: whatever its labels say, a container whose
/// environment does not set a service name is not opted in.
pub proof fn labels_are_not_consent(raw: DockerSummary, detail: DockerDetail, short: Seq<char>)
    requires
        env_service(kept(strings(detail.env@), |e: Seq<char>| own_entry(e))) is None,
    ensures
        !docker_container_view(raw, Some(detail), short).explicit_service(),
{
}

} // verus!
