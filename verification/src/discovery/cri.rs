//! Containers of a CRI runtime, as `crictl` lists them.
use vstd::prelude::*;
use vstd::string::*;

use crate::discovery::container::{Container, ContainerView, RuntimeProcessIdentity};
use crate::discovery::files::{format_before_sampling, unsampled_format};
use crate::json::{json_readings, read_documents, views, Json, JsonView};
use crate::outline::{
    opt_outline_view, optional_text, outline, outline_views, outlined, read_optional_text,
    text_map, text_members, Outline, OutlineView,
};
use crate::seqs::{all_of, kept, lemma_kept_step};
use crate::strmap::{texts, StrMap};
use crate::text::{
    clone_opt, concat, contains_string, lower_case, opt_str_view, opt_view, parse_u32, parsed,
    starts_with, str_eq, strings, strip_prefix, strs, to_lowercase, to_uppercase, trim, trimmed,
    upper_case,
};

verus! {

/// The sockets of the CRI runtimes, in the order in which they are tried.
pub open spec fn default_sockets() -> Seq<Seq<char>> {
    seq![
        "/run/containerd/containerd.sock"@,
        "/run/crio/crio.sock"@,
        "/var/run/cri-dockerd.sock"@,
    ]
}

pub fn cri_socket_paths() -> (r: Vec<String>)
    ensures
        strings(r@) == default_sockets(),
{
    let mut r: Vec<String> = Vec::new();
    r.push("/run/containerd/containerd.sock".to_owned());
    r.push("/run/crio/crio.sock".to_owned());
    r.push("/var/run/cri-dockerd.sock".to_owned());
    assert(strings(r@) =~= default_sockets());
    r
}

/// The path that a configured endpoint names, if it is a local one.
pub open spec fn endpoint_path(configured: Seq<char>) -> Option<Seq<char>> {
    let e = trimmed(configured);
    let scheme = "unix://"@;
    let path = if scheme.is_prefix_of(e) {
        e.skip(scheme.len() as int)
    } else {
        e
    };
    if "/"@.is_prefix_of(path) {
        Some(path)
    } else {
        None
    }
}

/// The first of some paths at which a socket is.
pub open spec fn first_socket(paths: Seq<Seq<char>>, sockets: Seq<Seq<char>>) -> Option<Seq<char>>
    decreases paths.len(),
{
    if paths.len() == 0 {
        None
    } else if sockets.contains(paths[0]) {
        Some(paths[0])
    } else {
        first_socket(paths.skip(1), sockets)
    }
}

/// The endpoint of the local runtime, given the paths at which sockets are. A
/// configured endpoint is taken or nothing is; only without one are the
/// runtimes' own sockets tried.
pub open spec fn local_endpoint(
    configured: Option<Seq<char>>,
    sockets: Seq<Seq<char>>,
) -> Option<Seq<char>> {
    let path = match configured {
        Some(c) => match endpoint_path(c) {
            Some(p) => if sockets.contains(p) {
                Some(p)
            } else {
                None
            },
            None => None,
        },
        None => first_socket(default_sockets(), sockets),
    };
    match path {
        Some(p) => Some("unix://"@ + p),
        None => None,
    }
}

/// The paths at which a socket has to be looked for.
pub fn endpoint_candidates(configured: Option<&str>) -> (r: Vec<String>)
    ensures
        strings(r@) == match configured {
            Some(c) => match endpoint_path(c@) {
                Some(p) => seq![p],
                None => seq![],
            },
            None => default_sockets(),
        },
{
    match configured {
        Some(c) => {
            let mut r: Vec<String> = Vec::new();
            assert(strings(r@) =~= seq![]);
            if let Some(p) = configured_path(c) {
                r.push(p.to_owned());
                assert(strings(r@) =~= seq![p@]);
            }
            r
        },
        None => cri_socket_paths(),
    }
}

fn configured_path<'a>(configured: &'a str) -> (r: Option<&'a str>)
    ensures
        opt_str_view(r) == endpoint_path(configured@),
{
    let e = trim(configured);
    let path = match strip_prefix(e, "unix://") {
        Some(path) => path,
        None => e,
    };
    if starts_with(path, "/") {
        Some(path)
    } else {
        None
    }
}

/// The endpoint of the local runtime, given the paths at which sockets are.
pub fn resolve_local_cri_endpoint(configured: Option<&str>, sockets: &Vec<String>) -> (r: Option<
    String,
>)
    ensures
        opt_view(r) == local_endpoint(opt_str_view(configured), strings(sockets@)),
{
    if let Some(c) = configured {
        return match configured_path(c) {
            Some(path) => if contains_string(sockets, path) {
                Some(concat("unix://", path))
            } else {
                None
            },
            None => None,
        };
    }
    let paths = cri_socket_paths();
    let ghost all = strings(paths@);
    let mut i: usize = 0;
    assert(all.skip(0) =~= all);
    while i < paths.len()
        invariant
            i <= paths@.len(),
            all == strings(paths@),
            all == default_sockets(),
            configured is None,
            first_socket(all, strings(sockets@)) == first_socket(
                all.skip(i as int),
                strings(sockets@),
            ),
        decreases paths.len() - i,
    {
        assert(all.skip(i as int)[0] == paths@[i as int]@);
        assert(all.skip(i as int).skip(1) =~= all.skip(i + 1));
        if contains_string(sockets, paths[i].as_str()) {
            return Some(concat("unix://", paths[i].as_str()));
        }
        i = i + 1;
    }
    None
}

/// Whether there is a local runtime to ask.
pub fn is_cri_available(configured: Option<&str>, sockets: &Vec<String>) -> (r: bool)
    ensures
        r == (local_endpoint(opt_str_view(configured), strings(sockets@)) is Some),
{
    resolve_local_cri_endpoint(configured, sockets).is_some()
}

/// A configured endpoint that is not a local socket is never replaced by
/// another: a remote runtime's process ids mean nothing on this host.
pub proof fn configured_endpoint_never_falls_back(
    configured: Seq<char>,
    sockets: Seq<Seq<char>>,
)
    ensures
        local_endpoint(Some(configured), sockets) is Some ==> endpoint_path(configured) is Some
            && local_endpoint(Some(configured), sockets)->0 == "unix://"@ + endpoint_path(
            configured,
        )->0 && sockets.contains(endpoint_path(configured)->0),
{
}

/// The arguments of a `crictl` call: the endpoint before the subcommand.
pub fn crictl_args(endpoint: &str, subcommand: &Vec<String>) -> (r: Vec<String>)
    ensures
        strings(r@) == seq!["--runtime-endpoint"@, endpoint@] + strings(subcommand@),
{
    let mut r: Vec<String> = Vec::new();
    r.push("--runtime-endpoint".to_owned());
    r.push(endpoint.to_owned());
    let mut rest = crate::text::clone_strings(subcommand);
    r.append(&mut rest);
    assert(strings(r@) =~= seq!["--runtime-endpoint"@, endpoint@] + strings(subcommand@));
    r
}

// ---------------------------------------------------------------------------
// States
// ---------------------------------------------------------------------------

/// The state that CRI names, given the name in capital and in small letters.
/// An unknown state keeps its name, in small letters.
pub open spec fn state_of_cases(upper: Seq<char>, lower: Seq<char>) -> Seq<char> {
    if upper == "CONTAINER_RUNNING"@ || upper == "RUNNING"@ {
        "running"@
    } else if upper == "CONTAINER_EXITED"@ || upper == "EXITED"@ {
        "exited"@
    } else if upper == "CONTAINER_CREATED"@ || upper == "CREATED"@ {
        "created"@
    } else if upper == "CONTAINER_UNKNOWN"@ || upper == "UNKNOWN"@ {
        "unknown"@
    } else {
        lower
    }
}

/// The state that CRI names.
pub open spec fn cri_state(state: Seq<char>) -> Seq<char> {
    state_of_cases(upper_case(state), lower_case(state))
}

/// The state that CRI names, given the name in capital and in small letters.
pub fn cri_state_of_cases(upper: &str, lower: String) -> (r: String)
    ensures
        r@ == state_of_cases(upper@, lower@),
{
    if str_eq(upper, "CONTAINER_RUNNING") || str_eq(upper, "RUNNING") {
        "running".to_owned()
    } else if str_eq(upper, "CONTAINER_EXITED") || str_eq(upper, "EXITED") {
        "exited".to_owned()
    } else if str_eq(upper, "CONTAINER_CREATED") || str_eq(upper, "CREATED") {
        "created".to_owned()
    } else if str_eq(upper, "CONTAINER_UNKNOWN") || str_eq(upper, "UNKNOWN") {
        "unknown".to_owned()
    } else {
        lower
    }
}

/// The state that CRI names.
pub fn map_cri_state(state: &str) -> (r: String)
    ensures
        r@ == cri_state(state@),
{
    let upper = to_uppercase(state);
    cri_state_of_cases(upper.as_str(), to_lowercase(state))
}

// ---------------------------------------------------------------------------
// Listings
// ---------------------------------------------------------------------------

/// A container as `crictl ps` lists it.
pub struct CrictlContainer {
    pub id: Option<String>,
    pub pod_sandbox_id: Option<String>,
    pub name: Option<String>,
    pub image_ref: Option<String>,
    pub state: Option<String>,
    pub labels: StrMap<String>,
}

/// What a listed container is.
#[verifier::ext_equal]
pub struct ListedView {
    pub id: Option<Seq<char>>,
    pub pod_sandbox_id: Option<Seq<char>>,
    pub name: Option<Seq<char>>,
    pub image_ref: Option<Seq<char>>,
    pub state: Option<Seq<char>>,
    pub labels: Map<Seq<char>, Seq<char>>,
}

impl View for CrictlContainer {
    type V = ListedView;

    open spec fn view(&self) -> ListedView {
        ListedView {
            id: opt_view(self.id),
            pod_sandbox_id: opt_view(self.pod_sandbox_id),
            name: opt_view(self.name),
            image_ref: opt_view(self.image_ref),
            state: opt_view(self.state),
            labels: texts(self.labels@),
        }
    }
}

/// A pod sandbox as `crictl pods` lists it.
pub struct PodSandbox {
    pub id: String,
    pub namespace: String,
    pub pod_name: String,
    pub pod_uid: String,
}

/// What a listed sandbox is.
#[verifier::ext_equal]
pub struct SandboxView {
    pub id: Seq<char>,
    pub namespace: Seq<char>,
    pub pod_name: Seq<char>,
    pub pod_uid: Seq<char>,
}

impl View for PodSandbox {
    type V = SandboxView;

    open spec fn view(&self) -> SandboxView {
        SandboxView {
            id: self.id@,
            namespace: self.namespace@,
            pod_name: self.pod_name@,
            pod_uid: self.pod_uid@,
        }
    }
}

/// What the listed containers are.
pub open spec fn listed_views(v: Seq<CrictlContainer>) -> Seq<ListedView> {
    v.map_values(|c: CrictlContainer| c@)
}

/// What the listed sandboxes are.
pub open spec fn sandbox_views(v: Seq<PodSandbox>) -> Seq<SandboxView> {
    v.map_values(|s: PodSandbox| s@)
}

/// An optional object of texts in a field.
pub open spec fn optional_texts(value: Option<OutlineView>) -> Option<Map<Seq<char>, Seq<char>>> {
    match value {
        None => Some(Map::empty()),
        Some(OutlineView::Null) => Some(Map::empty()),
        Some(OutlineView::Members(members)) => text_members(members),
        Some(_) => None,
    }
}

/// An optional text in a field of a record that may describe a container or sandbox.
pub open spec fn metadata_text(
    metadata: Option<OutlineView>,
    fields: Seq<Seq<char>>,
    k: int,
) -> Option<Option<Seq<char>>> {
    match metadata {
        None => Some(None),
        Some(OutlineView::Null) => Some(None),
        Some(record) => if record.is_record(fields) {
            optional_text(record.field(fields, k))
        } else {
            None
        },
    }
}

/// The fields of a listed container.
pub open spec fn container_fields() -> Seq<Seq<char>> {
    seq!["id"@, "podSandboxId"@, "metadata"@, "imageRef"@, "state"@, "labels"@]
}

/// The fields of what describes a container.
pub open spec fn container_metadata_fields() -> Seq<Seq<char>> {
    seq!["name"@]
}

/// The container that an entry of the listing describes, if it is well formed.
pub open spec fn listed_container(item: OutlineView) -> Option<ListedView> {
    let fields = container_fields();
    let id = optional_text(item.field(fields, 0));
    let sandbox = optional_text(item.field(fields, 1));
    let name = metadata_text(item.field(fields, 2), container_metadata_fields(), 0);
    let image = optional_text(item.field(fields, 3));
    let state = optional_text(item.field(fields, 4));
    let labels = optional_texts(item.field(fields, 5));
    if item.is_record(fields) && id is Some && sandbox is Some && name is Some && image is Some
        && state is Some && labels is Some {
        Some(
            ListedView {
                id: id->0,
                pod_sandbox_id: sandbox->0,
                name: name->0,
                image_ref: image->0,
                state: state->0,
                labels: labels->0,
            },
        )
    } else {
        None
    }
}

/// An optional array in the one field of a record.
pub open spec fn optional_items(outline: OutlineView, key: Seq<char>) -> Option<Seq<OutlineView>> {
    if !outline.is_record(seq![key]) {
        None
    } else {
        match outline.field(seq![key], 0) {
            None => Some(seq![]),
            Some(OutlineView::Null) => Some(seq![]),
            Some(OutlineView::Items(items)) => Some(items),
            Some(_) => None,
        }
    }
}

/// The containers of a listing, if it is well formed.
pub open spec fn listed_containers(outline: OutlineView) -> Option<Seq<ListedView>> {
    match optional_items(outline, "containers"@) {
        Some(items) => all_of(items, |item: OutlineView| listed_container(item)),
        None => None,
    }
}

/// The fields of a listed sandbox.
pub open spec fn sandbox_fields() -> Seq<Seq<char>> {
    seq!["id"@, "metadata"@]
}

/// The fields of what describes a sandbox.
pub open spec fn sandbox_metadata_fields() -> Seq<Seq<char>> {
    seq!["namespace"@, "name"@, "uid"@]
}

/// The sandbox that an entry of the listing describes, if it is well formed.
pub open spec fn listed_sandbox(item: OutlineView) -> Option<SandboxView> {
    let id = optional_text(item.field(sandbox_fields(), 0));
    let metadata = item.field(sandbox_fields(), 1);
    let namespace = metadata_text(metadata, sandbox_metadata_fields(), 0);
    let name = metadata_text(metadata, sandbox_metadata_fields(), 1);
    let uid = metadata_text(metadata, sandbox_metadata_fields(), 2);
    if item.is_record(sandbox_fields()) && id is Some && namespace is Some && name is Some
        && uid is Some {
        Some(
            SandboxView {
                id: text_or_empty(id->0),
                namespace: text_or_empty(namespace->0),
                pod_name: text_or_empty(name->0),
                pod_uid: text_or_empty(uid->0),
            },
        )
    } else {
        None
    }
}

/// The sandboxes of a listing, if it is well formed.
pub open spec fn listed_sandboxes(outline: OutlineView) -> Option<Seq<SandboxView>> {
    match optional_items(outline, "items"@) {
        Some(items) => all_of(items, |item: OutlineView| listed_sandbox(item)),
        None => None,
    }
}

/// The text, or nothing.
pub open spec fn text_or_empty(s: Option<Seq<char>>) -> Seq<char> {
    match s {
        Some(t) => t,
        None => seq![],
    }
}

/// The text that was read, if what was read was well formed.
pub open spec fn opt_text_read(r: Option<Option<String>>) -> Option<Option<Seq<char>>> {
    match r {
        Some(s) => Some(opt_view(s)),
        None => None,
    }
}

fn read_text_field(value: Option<&Outline>) -> (r: Option<Option<String>>)
    ensures
        opt_text_read(r) == optional_text(opt_outline_view(value)),
{
    match read_optional_text(value) {
        Some(Some(s)) => Some(Some(s.to_owned())),
        Some(None) => Some(None),
        None => None,
    }
}

fn read_metadata_text(metadata: Option<&Outline>, fields: &Vec<&str>, k: usize) -> (r: Option<
    Option<String>,
>)
    requires
        k < fields@.len(),
    ensures
        opt_text_read(r) == metadata_text(opt_outline_view(metadata), strs(fields@), k as int),
{
    match metadata {
        None => Some(None),
        Some(record) => match record {
            Outline::Null => Some(None),
            _ => if record.is_record(fields) {
                read_text_field(record.field(fields, k))
            } else {
                None
            },
        },
    }
}

fn no_texts() -> (m: StrMap<String>)
    ensures
        texts(m@) == Map::<Seq<char>, Seq<char>>::empty(),
{
    let m: StrMap<String> = StrMap::new();
    assert(texts(m@) =~= Map::<Seq<char>, Seq<char>>::empty());
    m
}

fn read_texts(value: Option<&Outline>) -> (r: Option<StrMap<String>>)
    ensures
        match r {
            Some(m) => optional_texts(opt_outline_view(value)) == Some(texts(m@)),
            None => optional_texts(opt_outline_view(value)) is None,
        },
{
    match value {
        None => Some(no_texts()),
        Some(outline) => match outline {
            Outline::Null => Some(no_texts()),
            _ => match outline.members() {
                Some(members) => text_map(members),
                None => None,
            },
        },
    }
}

fn read_listed_container(item: &Outline) -> (r: Option<CrictlContainer>)
    ensures
        match r {
            Some(c) => listed_container(item@) == Some(c@),
            None => listed_container(item@) is None,
        },
{
    let fields: Vec<&str> = vec!["id", "podSandboxId", "metadata", "imageRef", "state", "labels"];
    let metadata_fields: Vec<&str> = vec!["name"];
    assert(strs(fields@) =~= container_fields());
    assert(strs(metadata_fields@) =~= container_metadata_fields());
    if !item.is_record(&fields) {
        return None;
    }
    let id = read_text_field(item.field(&fields, 0));
    let sandbox = read_text_field(item.field(&fields, 1));
    let name = read_metadata_text(item.field(&fields, 2), &metadata_fields, 0);
    let image = read_text_field(item.field(&fields, 3));
    let state = read_text_field(item.field(&fields, 4));
    let labels = read_texts(item.field(&fields, 5));
    match (id, sandbox, name, image, state, labels) {
        (
            Some(id),
            Some(pod_sandbox_id),
            Some(name),
            Some(image_ref),
            Some(state),
            Some(labels),
        ) => {
            let c = CrictlContainer { id, pod_sandbox_id, name, image_ref, state, labels };
            assert(c@ =~= listed_container(item@)->0);
            Some(c)
        },
        _ => None,
    }
}

fn text_of(s: Option<String>) -> (r: String)
    ensures
        r@ == text_or_empty(opt_view(s)),
{
    match s {
        Some(t) => t,
        None => {
            let none = String::new();
            assert(none@ =~= seq![]);
            none
        },
    }
}

fn read_listed_sandbox(item: &Outline) -> (r: Option<PodSandbox>)
    ensures
        match r {
            Some(s) => listed_sandbox(item@) == Some(s@),
            None => listed_sandbox(item@) is None,
        },
{
    let fields: Vec<&str> = vec!["id", "metadata"];
    let metadata_fields: Vec<&str> = vec!["namespace", "name", "uid"];
    assert(strs(fields@) =~= sandbox_fields());
    assert(strs(metadata_fields@) =~= sandbox_metadata_fields());
    if !item.is_record(&fields) {
        return None;
    }
    let id = read_text_field(item.field(&fields, 0));
    let metadata = item.field(&fields, 1);
    let namespace = read_metadata_text(metadata, &metadata_fields, 0);
    let name = read_metadata_text(metadata, &metadata_fields, 1);
    let uid = read_metadata_text(metadata, &metadata_fields, 2);
    match (id, namespace, name, uid) {
        (Some(id), Some(namespace), Some(name), Some(uid)) => {
            let s = PodSandbox {
                id: text_of(id),
                namespace: text_of(namespace),
                pod_name: text_of(name),
                pod_uid: text_of(uid),
            };
            assert(s@ =~= listed_sandbox(item@)->0);
            Some(s)
        },
        _ => None,
    }
}

/// The items of an optional array in the one field of a record, which are none
/// where it is absent.
fn read_items<'a>(outline: &'a Outline, key: &str) -> (r: Option<Option<&'a Vec<Outline>>>)
    ensures
        match r {
            Some(Some(items)) => optional_items(outline@, key@) == Some(outline_views(items@)),
            Some(None) => optional_items(outline@, key@) == Some(Seq::<OutlineView>::empty()),
            None => optional_items(outline@, key@) is None,
        },
{
    let fields: Vec<&str> = vec![key];
    assert(strs(fields@) =~= seq![key@]);
    if !outline.is_record(&fields) {
        return None;
    }
    match outline.field(&fields, 0) {
        None => Some(None),
        Some(value) => match value {
            Outline::Null => Some(None),
            _ => match value.items() {
                Some(items) => Some(Some(items)),
                None => None,
            },
        },
    }
}

/// The containers of a `crictl ps` outline.
pub fn read_crictl_containers(outline: &Outline) -> (r: Option<Vec<CrictlContainer>>)
    ensures
        match r {
            Some(v) => listed_containers(outline@) == Some(listed_views(v@)),
            None => listed_containers(outline@) is None,
        },
{
    let mut out: Vec<CrictlContainer> = Vec::new();
    let ghost f = |item: OutlineView| listed_container(item);
    let items = match read_items(outline, "containers") {
        Some(Some(items)) => items,
        Some(None) => {
            assert(listed_views(out@) =~= all_of(Seq::<OutlineView>::empty(), f)->0);
            return Some(out);
        },
        None => {
            return None;
        },
    };
    let ghost vs = outline_views(items@);
    let mut i: usize = 0;
    while i < items.len()
        invariant
            i <= items@.len(),
            vs == outline_views(items@),
            f == (|item: OutlineView| listed_container(item)),
            optional_items(outline@, "containers"@) == Some(vs),
            out@.len() == i,
            forall|j: int| 0 <= j < i ==> f(#[trigger] vs[j]) == Some(listed_views(out@)[j]),
        decreases items.len() - i,
    {
        assert(vs[i as int] == items@[i as int]@);
        match read_listed_container(&items[i]) {
            Some(c) => {
                let ghost before = listed_views(out@);
                out.push(c);
                assert(listed_views(out@) =~= before.push(c@));
            },
            None => {
                assert(!(f(vs[i as int]) is Some));
                return None;
            },
        }
        i = i + 1;
    }
    assert(listed_views(out@) =~= all_of(vs, f)->0);
    Some(out)
}

/// The sandboxes of a `crictl pods` outline.
pub fn read_crictl_sandboxes(outline: &Outline) -> (r: Option<Vec<PodSandbox>>)
    ensures
        match r {
            Some(v) => listed_sandboxes(outline@) == Some(sandbox_views(v@)),
            None => listed_sandboxes(outline@) is None,
        },
{
    let mut out: Vec<PodSandbox> = Vec::new();
    let ghost f = |item: OutlineView| listed_sandbox(item);
    let items = match read_items(outline, "items") {
        Some(Some(items)) => items,
        Some(None) => {
            assert(sandbox_views(out@) =~= all_of(Seq::<OutlineView>::empty(), f)->0);
            return Some(out);
        },
        None => {
            return None;
        },
    };
    let ghost vs = outline_views(items@);
    let mut i: usize = 0;
    while i < items.len()
        invariant
            i <= items@.len(),
            vs == outline_views(items@),
            f == (|item: OutlineView| listed_sandbox(item)),
            optional_items(outline@, "items"@) == Some(vs),
            out@.len() == i,
            forall|j: int| 0 <= j < i ==> f(#[trigger] vs[j]) == Some(sandbox_views(out@)[j]),
        decreases items.len() - i,
    {
        assert(vs[i as int] == items@[i as int]@);
        match read_listed_sandbox(&items[i]) {
            Some(s) => {
                let ghost before = sandbox_views(out@);
                out.push(s);
                assert(sandbox_views(out@) =~= before.push(s@));
            },
            None => {
                assert(!(f(vs[i as int]) is Some));
                return None;
            },
        }
        i = i + 1;
    }
    assert(sandbox_views(out@) =~= all_of(vs, f)->0);
    Some(out)
}

/// The containers in the output of `crictl ps -o json`, if it is a listing. Members
/// that nobody reads are passed over, whatever they hold.
pub fn parse_crictl_output(output: &[u8]) -> (r: Option<Vec<CrictlContainer>>)
    ensures
        match r {
            Some(listed) => listed_containers(outlined(output@, 4)) == Some(listed_views(listed@)),
            None => listed_containers(outlined(output@, 4)) is None,
        },
{
    read_crictl_containers(&outline(output, 4))
}

/// The sandboxes in the output of `crictl pods -o json`, if it is a listing.
pub fn parse_crictl_pods_output(output: &[u8]) -> (r: Option<Vec<PodSandbox>>)
    ensures
        match r {
            Some(listed) => listed_sandboxes(outlined(output@, 4)) == Some(sandbox_views(listed@)),
            None => listed_sandboxes(outlined(output@, 4)) is None,
        },
{
    read_crictl_sandboxes(&outline(output, 4))
}

// ---------------------------------------------------------------------------
// Containers
// ---------------------------------------------------------------------------

/// The place of the last sandbox of that id, or -1 if there is none.
pub open spec fn sandbox_place(sandboxes: Seq<SandboxView>, id: Seq<char>) -> int
    decreases sandboxes.len(),
{
    if sandboxes.len() == 0 {
        -1
    } else if sandboxes.last().id == id {
        sandboxes.len() - 1
    } else {
        sandbox_place(sandboxes.drop_last(), id)
    }
}

/// The sandbox that a container runs in, as far as it is listed.
pub open spec fn sandbox_of(sandboxes: Seq<SandboxView>, id: Option<Seq<char>>) -> SandboxView {
    let at = match id {
        Some(id) => sandbox_place(sandboxes, id),
        None => -1,
    };
    if at >= 0 {
        sandboxes[at]
    } else {
        SandboxView { id: seq![], namespace: seq![], pod_name: seq![], pod_uid: seq![] }
    }
}

/// The container that a listing describes. Its init process counts only while
/// it runs.
pub open spec fn cri_container_view(
    c: ListedView,
    sandboxes: Seq<SandboxView>,
    processes: Map<Seq<char>, RuntimeProcessIdentity>,
) -> ContainerView {
    let sandbox = sandbox_of(sandboxes, c.pod_sandbox_id);
    let name = text_or_empty(c.name);
    let id = text_or_empty(c.id);
    let key = "LOGPACER_SERVICE_NAME"@;
    let explicit = c.labels.contains_key(key) && c.labels[key].len() > 0;
    let state = cri_state(text_or_empty(c.state));
    ContainerView {
        id,
        name,
        service_name: if explicit {
            c.labels[key]
        } else {
            name
        },
        service_name_explicit: explicit,
        image: text_or_empty(c.image_ref),
        state,
        labels: c.labels,
        env: seq![],
        runtime: "containerd"@,
        log_path: seq![],
        log_format: unsampled_format(c.labels),
        pod_uid: sandbox.pod_uid,
        pod_name: sandbox.pod_name,
        namespace: sandbox.namespace,
        node_name: seq![],
        deployment: seq![],
        workload_kind: seq![],
        container_id: id,
        container_name: name,
        runtime_process: if state == "running"@ && processes.contains_key(id) {
            Some(processes[id])
        } else {
            None
        },
    }
}

fn find_sandbox(sandboxes: &Vec<PodSandbox>, id: &str) -> (r: Option<usize>)
    ensures
        match r {
            Some(i) => sandbox_place(sandbox_views(sandboxes@), id@) == i && i < sandboxes@.len(),
            None => sandbox_place(sandbox_views(sandboxes@), id@) == -1,
        },
{
    let ghost all = sandbox_views(sandboxes@);
    let mut i: usize = sandboxes.len();
    assert(all.take(i as int) =~= all);
    while i > 0
        invariant
            i <= sandboxes@.len(),
            all == sandbox_views(sandboxes@),
            sandbox_place(all, id@) == sandbox_place(all.take(i as int), id@),
        decreases i,
    {
        let ghost t = all.take(i as int);
        assert(t.last() == sandboxes@[i - 1]@);
        assert(t.drop_last() =~= all.take(i - 1));
        if str_eq(sandboxes[i - 1].id.as_str(), id) {
            return Some(i - 1);
        }
        i = i - 1;
    }
    None
}

/// The container that a listing describes, with the sandbox that it runs in and
/// the init process that inspection found.
pub fn cri_container(
    c: CrictlContainer,
    sandboxes: &Vec<PodSandbox>,
    processes: &StrMap<RuntimeProcessIdentity>,
) -> (r: Container)
    ensures
        r@ == cri_container_view(c@, sandbox_views(sandboxes@), processes@),
{
    let at = match &c.pod_sandbox_id {
        Some(id) => find_sandbox(sandboxes, id.as_str()),
        None => None,
    };
    let ghost sandbox = sandbox_of(sandbox_views(sandboxes@), c@.pod_sandbox_id);
    let none = String::new();
    assert(none@ =~= seq![]);
    let (namespace, pod_name, pod_uid) = match at {
        Some(i) => (
            sandboxes[i].namespace.clone(),
            sandboxes[i].pod_name.clone(),
            sandboxes[i].pod_uid.clone(),
        ),
        None => (String::new(), String::new(), String::new()),
    };
    assert(namespace@ =~= sandbox.namespace);
    assert(pod_name@ =~= sandbox.pod_name);
    assert(pod_uid@ =~= sandbox.pod_uid);
    let name = text_of(clone_opt(&c.name));
    let id = text_of(clone_opt(&c.id));
    let raw_state = text_of(clone_opt(&c.state));
    let state = map_cri_state(raw_state.as_str());
    let mut service_name_explicit = false;
    let mut service_name = name.clone();
    if let Some(value) = c.labels.get("LOGPACER_SERVICE_NAME") {
        if !value.as_str().is_empty() {
            service_name_explicit = true;
            service_name = value.clone();
        }
    }
    let mut runtime_process: Option<RuntimeProcessIdentity> = None;
    if str_eq(state.as_str(), "running") {
        if let Some(p) = processes.get(id.as_str()) {
            runtime_process = Some(*p);
        }
    }
    let log_format = format_before_sampling(&c.labels);
    let env: Vec<String> = Vec::new();
    assert(strings(env@) =~= seq![]);
    let r = Container {
        id: id.clone(),
        name: name.clone(),
        service_name,
        service_name_explicit,
        image: text_of(clone_opt(&c.image_ref)),
        state,
        labels: crate::strmap::clone_map(&c.labels),
        env,
        runtime: "containerd".to_owned(),
        log_path: String::new(),
        log_format,
        pod_uid,
        pod_name,
        namespace,
        node_name: String::new(),
        deployment: String::new(),
        workload_kind: String::new(),
        container_id: id,
        container_name: name,
        runtime_process,
    };
    assert(r@ =~= cri_container_view(c@, sandbox_views(sandboxes@), processes@));
    r
}

/// The containers that a listing describes, in its order.
pub fn cri_containers(
    listed: Vec<CrictlContainer>,
    sandboxes: &Vec<PodSandbox>,
    processes: &StrMap<RuntimeProcessIdentity>,
) -> (r: Vec<Container>)
    ensures
        r@.len() == listed@.len(),
        forall|i: int|
            0 <= i < r@.len() ==> (#[trigger] r@[i])@ == cri_container_view(
                listed@[i]@,
                sandbox_views(sandboxes@),
                processes@,
            ),
{
    let ghost all = listed@;
    let mut out: Vec<Container> = Vec::new();
    for c in iter: listed
        invariant
            iter.seq() == all,
            out@.len() == iter.index(),
            forall|i: int|
                0 <= i < out@.len() ==> (#[trigger] out@[i])@ == cri_container_view(
                    all[i]@,
                    sandbox_views(sandboxes@),
                    processes@,
                ),
    {
        out.push(cri_container(c, sandboxes, processes));
    }
    out
}

/// The id of a listed container that is running, unless it is empty.
pub open spec fn running_id(c: ListedView) -> Option<Seq<char>> {
    if c.state is Some && cri_state(c.state->0) == "running"@ && c.id is Some && c.id->0.len() > 0 {
        c.id
    } else {
        None
    }
}

/// The ids of the listed containers that are running.
pub fn running_ids(listed: &Vec<CrictlContainer>) -> (r: Vec<String>)
    ensures
        strings(r@) == kept(listed_views(listed@), |c: ListedView| running_id(c)),
{
    let ghost rows = listed_views(listed@);
    let ghost f = |c: ListedView| running_id(c);
    let mut out: Vec<String> = Vec::new();
    let mut i: usize = 0;
    assert(strings(out@) =~= kept(rows.take(0), f));
    while i < listed.len()
        invariant
            i <= listed@.len(),
            rows == listed_views(listed@),
            f == (|c: ListedView| running_id(c)),
            strings(out@) == kept(rows.take(i as int), f),
        decreases listed.len() - i,
    {
        proof {
            lemma_kept_step(rows, f, i as int);
            assert(rows[i as int] == listed@[i as int]@);
        }
        let ghost before = strings(out@);
        match (&listed[i].state, &listed[i].id) {
            (Some(state), Some(id)) => {
                let mapped = map_cri_state(state.as_str());
                if str_eq(mapped.as_str(), "running") && !id.as_str().is_empty() {
                    out.push(id.clone());
                    assert(strings(out@) =~= before.push(id@));
                }
            },
            _ => {},
        }
        i = i + 1;
    }
    assert(rows.take(i as int) =~= rows);
    out
}

// ---------------------------------------------------------------------------
// Init processes
// ---------------------------------------------------------------------------

/// A process id that a value writes, as a number or as a text; never zero.
pub open spec fn pid_of_value(value: JsonView) -> Option<u32> {
    let n: Option<nat> = match value {
        JsonView::Unsigned(n) => if n <= u32::MAX {
            Some(n as nat)
        } else {
            None
        },
        JsonView::Text(s) => parsed(trimmed(s), 10, u32::MAX as nat),
        _ => None,
    };
    match n {
        Some(n) => if n != 0 {
            Some(n as u32)
        } else {
            None
        },
        None => None,
    }
}

pub fn parse_pid_value(value: &Json) -> (r: Option<u32>)
    ensures
        r == pid_of_value(value@),
{
    let pid: Option<u32> = match value {
        Json::Number(crate::json::Number::Unsigned(n)) => if *n <= u32::MAX as u64 {
            Some(*n as u32)
        } else {
            None
        },
        Json::Text(s) => parse_u32(trim(s.as_str())),
        _ => None,
    };
    match pid {
        Some(pid) => if pid != 0 {
            Some(pid)
        } else {
            None
        },
        None => None,
    }
}

/// A value that is there and is not null.
pub open spec fn given(value: Option<JsonView>) -> Option<JsonView> {
    match value {
        Some(JsonView::Null) => None,
        _ => value,
    }
}

/// The value under a key of the object under another.
pub open spec fn at_path(record: JsonView, outer: Seq<char>, key: Seq<char>) -> Option<JsonView> {
    match record.get(outer) {
        Some(inner) => inner.get(key),
        None => None,
    }
}

/// The init process that a record gives, at one of two places or at both; then
/// the two have to agree.
pub open spec fn init_pid(record: JsonView) -> Option<u32> {
    let a = given(at_path(record, "info"@, "pid"@));
    let b = given(record.get("pid"@));
    match (a, b) {
        (None, None) => None,
        (Some(x), None) => pid_of_value(x),
        (None, Some(y)) => pid_of_value(y),
        (Some(x), Some(y)) => if pid_of_value(x) == pid_of_value(y) {
            pid_of_value(x)
        } else {
            None
        },
    }
}

fn value_at<'a>(record: &'a Json, outer: &str, key: &str) -> (r: Option<&'a Json>)
    ensures
        match r {
            Some(v) => at_path(record@, outer@, key@) == Some(v@),
            None => at_path(record@, outer@, key@) is None,
        },
{
    match record.get(outer) {
        Some(inner) => inner.get(key),
        None => None,
    }
}

fn if_given<'a>(value: Option<&'a Json>) -> (r: Option<&'a Json>)
    ensures
        match value {
            Some(v) => if v@ is Null {
                r is None
            } else {
                r == Some(v)
            },
            None => r is None,
        },
{
    match value {
        Some(v) => if v.is_null() {
            None
        } else {
            Some(v)
        },
        None => None,
    }
}

pub fn init_pid_from_inspect_record(record: &Json) -> (r: Option<u32>)
    ensures
        r == init_pid(record@),
{
    let a = if_given(value_at(record, "info", "pid"));
    let b = if_given(record.get("pid"));
    match (a, b) {
        (None, None) => None,
        (Some(x), None) => parse_pid_value(x),
        (None, Some(y)) => parse_pid_value(y),
        (Some(x), Some(y)) => {
            match (parse_pid_value(x), parse_pid_value(y)) {
                (Some(p), Some(q)) => if p == q {
                    Some(p)
                } else {
                    None
                },
                _ => None,
            }
        },
    }
}

/// The id and the init process of a running container that a record describes.
pub open spec fn init_record(record: JsonView) -> Option<(Seq<char>, u32)> {
    let id = at_path(record, "status"@, "id"@);
    let state = at_path(record, "status"@, "state"@);
    if id is Some && id->0 is Text && id->0->Text_0.len() > 0 && state is Some && state->0 is Text
        && cri_state(state->0->Text_0) == "running"@ && init_pid(record) is Some {
        Some((id->0->Text_0, init_pid(record)->0))
    } else {
        None
    }
}

/// Whether all records of a container give the same init process.
pub open spec fn agreed_pid(records: Seq<JsonView>, id: Seq<char>, pid: u32) -> bool {
    &&& exists|i: int|
        0 <= i < records.len() && init_record(#[trigger] records[i]) == Some((id, pid))
    &&& forall|i: int|
        0 <= i < records.len() && (init_record(#[trigger] records[i]) matches Some(r) && r.0 == id)
            ==> init_record(records[i]) == Some((id, pid))
}

/// The id and the init process of a running container that a record describes.
pub fn read_init_record(record: &Json) -> (r: Option<(String, u32)>)
    ensures
        match r {
            Some((id, pid)) => init_record(record@) == Some((id@, pid)),
            None => init_record(record@) is None,
        },
{
    let id = match value_at(record, "status", "id") {
        Some(v) => match v.as_str() {
            Some(id) => id,
            None => {
                return None;
            },
        },
        None => {
            return None;
        },
    };
    if id.is_empty() {
        return None;
    }
    let state = match value_at(record, "status", "state") {
        Some(v) => match v.as_str() {
            Some(state) => state,
            None => {
                return None;
            },
        },
        None => {
            return None;
        },
    };
    let mapped = map_cri_state(state);
    if !str_eq(mapped.as_str(), "running") {
        return None;
    }
    match init_pid_from_inspect_record(record) {
        Some(pid) => Some((id.to_owned(), pid)),
        None => None,
    }
}

/// Takes a container out of those found, leaving the others as they are.
fn forget(pids: StrMap<u32>, id: &str) -> (r: StrMap<u32>)
    ensures
        r@ == pids@.remove(id@),
{
    let mut kept_pids: StrMap<u32> = StrMap::new();
    let mut i: usize = 0;
    let ghost all = pids.entries@;
    proof {
        assert(kept_pids@ =~= Map::<Seq<char>, u32>::empty());
        assert(crate::strmap::map_of(all.take(0)) =~= Map::<Seq<char>, u32>::empty());
    }
    while i < pids.entries.len()
        invariant
            i <= pids.entries@.len(),
            all == pids.entries@,
            kept_pids@ == crate::strmap::map_of(all.take(i as int)).remove(id@),
        decreases pids.entries.len() - i,
    {
        let key = pids.entries[i].0.as_str();
        proof {
            lemma_map_step(all, i as int);
        }
        let ghost before = crate::strmap::map_of(all.take(i as int));
        if !str_eq(key, id) && !kept_pids.contains_key(key) {
            kept_pids.insert(key.to_owned(), pids.entries[i].1);
            assert(kept_pids@ =~= crate::strmap::map_of(all.take(i + 1)).remove(id@));
        } else {
            assert(kept_pids@ =~= crate::strmap::map_of(all.take(i + 1)).remove(id@));
        }
        i = i + 1;
    }
    assert(all.take(i as int) =~= all);
    kept_pids
}

/// What one more entry adds to the map that entries stand for.
proof fn lemma_map_step<V>(all: Seq<(String, V)>, i: int)
    requires
        0 <= i < all.len(),
    ensures
        ({
            let m = crate::strmap::map_of(all.take(i));
            let n = crate::strmap::map_of(all.take(i + 1));
            let key = all[i].0@;
            n == if m.contains_key(key) {
                m
            } else {
                m.insert(key, all[i].1)
            }
        }),
{
    let a = all.take(i);
    let b = all.take(i + 1);
    let m = crate::strmap::map_of(a);
    let n = crate::strmap::map_of(b);
    let key = all[i].0@;
    assert forall|k: Seq<char>|
        #![trigger n.contains_key(k)]
        #![trigger m.contains_key(k)]
        (n.contains_key(k) <==> m.contains_key(k) || k == key) && (m.contains_key(k) ==> n[k]
            == m[k]) && (!m.contains_key(k) && k == key ==> n[k] == all[i].1) by {
        crate::strmap::lemma_position(a, k);
        let p = crate::strmap::position(a, k);
        assert forall|j: int| 0 <= j < p implies #[trigger] b[j].0@ != k by {
            assert(a[j].0@ != k);
        }
        if p < a.len() {
            crate::strmap::lemma_position_at(b, k, p);
        } else if k == key {
            crate::strmap::lemma_position_at(b, k, p);
        } else {
            assert forall|j: int| 0 <= j < b.len() implies #[trigger] b[j].0@ != k by {
                if j < a.len() {
                    assert(a[j].0@ != k);
                }
            }
            crate::strmap::lemma_position_at(b, k, b.len() as int);
        }
    }
    if m.contains_key(key) {
        assert(n =~= m);
    } else {
        assert(n =~= m.insert(key, all[i].1));
    }
}

/// The init processes that inspection records give, by container. A container
/// whose records contradict each other has none; the others are not affected.
pub fn init_pids(records: &Vec<Json>) -> (r: StrMap<u32>)
    ensures
        forall|id: Seq<char>, pid: u32|
            (r@.contains_key(id) && r@[id] == pid) <==> #[trigger] agreed_pid(
                views(records@),
                id,
                pid,
            ),
{
    let ghost all = views(records@);
    let mut pids: StrMap<u32> = StrMap::new();
    let mut ambiguous: Vec<String> = Vec::new();
    let mut i: usize = 0;
    while i < records.len()
        invariant
            i <= records@.len(),
            all == views(records@),
            forall|id: Seq<char>|
                #[trigger] pids@.contains_key(id) ==> !strings(ambiguous@).contains(id)
                    && agreed_pid(all.take(i as int), id, pids@[id]),
            forall|id: Seq<char>|
                #[trigger] strings(ambiguous@).contains(id) ==> contradicted(
                    all.take(i as int),
                    id,
                ),
            forall|id: Seq<char>|
                #![trigger pids@.contains_key(id)]
                #![trigger strings(ambiguous@).contains(id)]
                mentioned(all.take(i as int), id) ==> pids@.contains_key(id) || strings(
                    ambiguous@,
                ).contains(id),
        decreases records.len() - i,
    {
        let ghost before = all.take(i as int);
        let ghost after = all.take(i + 1);
        let ghost old_pids = pids@;
        let ghost old_ambiguous = strings(ambiguous@);
        assert(all[i as int] == records@[i as int]@);
        assert(after =~= before.push(all[i as int]));
        match read_init_record(&records[i]) {
            Some((id, pid)) => {
                let known = pids.get(id.as_str());
                let clash = match known {
                    Some(p) => *p != pid,
                    None => false,
                };
                if contains_string(&ambiguous, id.as_str()) {
                } else if clash {
                    pids = forget(pids, id.as_str());
                    ambiguous.push(id.clone());
                    assert(strings(ambiguous@) =~= old_ambiguous.push(id@));
                } else {
                    pids.insert(id.clone(), pid);
                }
                proof {
                    lemma_record_added(
                        before,
                        all[i as int],
                        id@,
                        pid,
                        old_pids,
                        old_ambiguous,
                        pids@,
                        strings(ambiguous@),
                    );
                }
            },
            None => {
                proof {
                    lemma_nothing_added(before, all[i as int]);
                }
            },
        }
        i = i + 1;
    }
    proof {
        assert(all.take(i as int) =~= all);
        assert forall|id: Seq<char>, pid: u32|
            (pids@.contains_key(id) && pids@[id] == pid) <==> #[trigger] agreed_pid(
                all,
                id,
                pid,
            ) by {
            if pids@.contains_key(id) {
                if agreed_pid(all, id, pid) {
                    lemma_agreed_is_one(all, id, pids@[id], pid);
                }
            } else if agreed_pid(all, id, pid) {
                assert(mentioned(all, id));
                assert(strings(ambiguous@).contains(id));
                lemma_contradicted(all, id, pid);
            }
        }
    }
    pids
}

/// Whether a record of the container gives an init process.
pub open spec fn mentioned(records: Seq<JsonView>, id: Seq<char>) -> bool {
    exists|i: int|
        0 <= i < records.len() && (init_record(#[trigger] records[i]) matches Some(r) && r.0 == id)
}

/// Whether two records of the container give different init processes.
pub open spec fn contradicted(records: Seq<JsonView>, id: Seq<char>) -> bool {
    exists|i: int, j: int|
        0 <= i < records.len() && 0 <= j < records.len() && (init_record(#[trigger] records[i])
            matches Some(r) && r.0 == id && (init_record(#[trigger] records[j]) matches Some(t)
            && t.0 == id && r.1 != t.1))
}

proof fn lemma_contradicted(records: Seq<JsonView>, id: Seq<char>, pid: u32)
    requires
        contradicted(records, id),
    ensures
        !agreed_pid(records, id, pid),
{
}

proof fn lemma_agreed_is_one(records: Seq<JsonView>, id: Seq<char>, p: u32, q: u32)
    requires
        agreed_pid(records, id, p),
        agreed_pid(records, id, q),
    ensures
        p == q,
{
}

proof fn lemma_nothing_added(before: Seq<JsonView>, record: JsonView)
    requires
        init_record(record) is None,
    ensures
        forall|id: Seq<char>, pid: u32|
            agreed_pid(before, id, pid) ==> #[trigger] agreed_pid(before.push(record), id, pid),
        forall|id: Seq<char>|
            contradicted(before, id) ==> #[trigger] contradicted(before.push(record), id),
        forall|id: Seq<char>|
            #[trigger] mentioned(before.push(record), id) ==> mentioned(before, id),
{
    let after = before.push(record);
    assert forall|id: Seq<char>, pid: u32| agreed_pid(before, id, pid) implies #[trigger] agreed_pid(
        after,
        id,
        pid,
    ) by {
        let i = choose|i: int|
            0 <= i < before.len() && init_record(#[trigger] before[i]) == Some((id, pid));
        assert(after[i] == before[i]);
        assert forall|i: int|
            0 <= i < after.len() && (init_record(#[trigger] after[i]) matches Some(r) && r.0
                == id) implies init_record(after[i]) == Some((id, pid)) by {
            if i < before.len() {
                assert(after[i] == before[i]);
            }
        }
    }
    assert forall|id: Seq<char>| contradicted(before, id) implies #[trigger] contradicted(
        after,
        id,
    ) by {
        let (i, j) = choose|i: int, j: int|
            0 <= i < before.len() && 0 <= j < before.len() && (init_record(#[trigger] before[i])
                matches Some(r) && r.0 == id && (init_record(#[trigger] before[j]) matches Some(t)
                && t.0 == id && r.1 != t.1));
        assert(after[i] == before[i]);
        assert(after[j] == before[j]);
    }
    assert forall|id: Seq<char>| #[trigger] mentioned(after, id) implies mentioned(before, id) by {
        let i = choose|i: int|
            0 <= i < after.len() && (init_record(#[trigger] after[i]) matches Some(r) && r.0 == id);
        assert(i < before.len());
        assert(after[i] == before[i]);
    }
}

/// What one record does to what the records before it added up to.
proof fn lemma_record_added(
    before: Seq<JsonView>,
    record: JsonView,
    id: Seq<char>,
    pid: u32,
    pids: Map<Seq<char>, u32>,
    ambiguous: Seq<Seq<char>>,
    new_pids: Map<Seq<char>, u32>,
    new_ambiguous: Seq<Seq<char>>,
)
    requires
        init_record(record) == Some((id, pid)),
        forall|k: Seq<char>|
            #[trigger] pids.contains_key(k) ==> !ambiguous.contains(k) && agreed_pid(
                before,
                k,
                pids[k],
            ),
        forall|k: Seq<char>| #[trigger] ambiguous.contains(k) ==> contradicted(before, k),
        forall|k: Seq<char>|
            #![trigger pids.contains_key(k)]
            #![trigger ambiguous.contains(k)]
            mentioned(before, k) ==> pids.contains_key(k) || ambiguous.contains(k),
        if ambiguous.contains(id) {
            new_pids == pids && new_ambiguous == ambiguous
        } else if pids.contains_key(id) && pids[id] != pid {
            new_pids == pids.remove(id) && new_ambiguous == ambiguous.push(id)
        } else {
            new_pids == pids.insert(id, pid) && new_ambiguous == ambiguous
        },
    ensures
        forall|k: Seq<char>|
            #[trigger] new_pids.contains_key(k) ==> !new_ambiguous.contains(k) && agreed_pid(
                before.push(record),
                k,
                new_pids[k],
            ),
        forall|k: Seq<char>|
            #[trigger] new_ambiguous.contains(k) ==> contradicted(before.push(record), k),
        forall|k: Seq<char>|
            #![trigger new_pids.contains_key(k)]
            #![trigger new_ambiguous.contains(k)]
            mentioned(before.push(record), k) ==> new_pids.contains_key(k)
                || new_ambiguous.contains(k),
{
    let after = before.push(record);
    let n = before.len() as int;
    assert(after[n] == record);
    assert forall|k: Seq<char>| ambiguous.contains(k) implies contradicted(after, k) by {
        let (i, j) = choose|i: int, j: int|
            0 <= i < before.len() && 0 <= j < before.len() && (init_record(#[trigger] before[i])
                matches Some(r) && r.0 == k && (init_record(#[trigger] before[j]) matches Some(t)
                && t.0 == k && r.1 != t.1));
        assert(after[i] == before[i]);
        assert(after[j] == before[j]);
    }
    assert forall|k: Seq<char>| mentioned(after, k) && k != id implies mentioned(before, k) by {
        let i = choose|i: int|
            0 <= i < after.len() && (init_record(#[trigger] after[i]) matches Some(r) && r.0 == k);
        assert(i < n);
        assert(after[i] == before[i]);
    }
    assert forall|k: Seq<char>, p: u32| k != id && agreed_pid(before, k, p) implies agreed_pid(
        after,
        k,
        p,
    ) by {
        let i = choose|i: int|
            0 <= i < before.len() && init_record(#[trigger] before[i]) == Some((k, p));
        assert(after[i] == before[i]);
        assert forall|i: int|
            0 <= i < after.len() && (init_record(#[trigger] after[i]) matches Some(r) && r.0
                == k) implies init_record(after[i]) == Some((k, p)) by {
            if i < before.len() {
                assert(after[i] == before[i]);
            }
        }
    }
    assert forall|k: Seq<char>| new_ambiguous.contains(k) && k != id implies ambiguous.contains(
        k,
    ) by {
        if new_ambiguous != ambiguous {
            let i = choose|i: int| 0 <= i < new_ambiguous.len() && new_ambiguous[i] == k;
            assert(i < ambiguous.len());
            assert(ambiguous[i] == k);
        }
    }
    assert forall|k: Seq<char>| ambiguous.contains(k) implies new_ambiguous.contains(k) by {
        let i = choose|i: int| 0 <= i < ambiguous.len() && ambiguous[i] == k;
        assert(new_ambiguous[i] == k);
    }
    if !ambiguous.contains(id) {
        if pids.contains_key(id) && pids[id] != pid {
            assert(new_ambiguous[ambiguous.len() as int] == id);
            assert(new_ambiguous.contains(id));
            let i = choose|i: int|
                0 <= i < before.len() && init_record(#[trigger] before[i]) == Some((id, pids[id]));
            assert(after[i] == before[i]);
            assert(contradicted(after, id));
        } else {
            assert(agreed_pid(after, id, pid)) by {
                assert forall|i: int|
                    0 <= i < after.len() && (init_record(#[trigger] after[i]) matches Some(r)
                        && r.0 == id) implies init_record(after[i]) == Some((id, pid)) by {
                    if i < before.len() {
                        assert(after[i] == before[i]);
                        assert(mentioned(before, id));
                        assert(pids.contains_key(id));
                    }
                }
            }
        }
    }
}

/// The records of one inspected document: those of an array, or the document
/// itself where it is an object.
pub open spec fn records_in(document: JsonView) -> Seq<JsonView> {
    match document {
        JsonView::Array(items) => items,
        JsonView::Object(_) => seq![document],
        _ => seq![],
    }
}

/// The records of inspected documents, in order.
pub open spec fn all_records(documents: Seq<JsonView>) -> Seq<JsonView>
    decreases documents.len(),
{
    if documents.len() == 0 {
        seq![]
    } else {
        all_records(documents.drop_last()) + records_in(documents.last())
    }
}

/// The records of inspected documents, in order.
pub fn inspect_records(documents: Vec<Json>) -> (r: Vec<Json>)
    ensures
        views(r@) == all_records(views(documents@)),
{
    let ghost all = documents@;
    let ghost vs = views(all);
    let mut out: Vec<Json> = Vec::new();
    assert(views(out@) =~= all_records(vs.take(0)));
    for document in iter: documents
        invariant
            iter.seq() == all,
            vs == views(all),
            views(out@) == all_records(vs.take(iter.index() as int)),
    {
        let ghost n = iter.index() as int;
        proof {
            assert(vs.take(n + 1).drop_last() =~= vs.take(n));
            assert(vs.take(n + 1).last() == document@);
        }
        let ghost before = views(out@);
        match document {
            Json::Array(items) => {
                let mut items = items;
                let ghost added = items@;
                assert(document@->Array_0 =~= views(added));
                out.append(&mut items);
                assert(views(out@) =~= before + views(added));
            },
            Json::Object(entries) => {
                let object = Json::Object(entries);
                assert(object@ == document@);
                out.push(object);
                assert(views(out@) =~= before + seq![document@]);
            },
            _ => {
                assert(views(out@) =~= before + records_in(document@));
            },
        }
    }
    assert(vs.take(all.len() as int) =~= vs);
    out
}

/// The init processes that the output of `crictl inspect` gives, by container, or
/// what the JSON reader says of an output that it cannot read. The output is one
/// array, one object, or several one after another.
pub fn parse_cri_init_pids(output: &[u8]) -> (r: Result<StrMap<u32>, String>)
    ensures
        match json_readings(output@) {
            Ok(documents) => r is Ok && (forall|id: Seq<char>, pid: u32|
                (r->Ok_0@.contains_key(id) && r->Ok_0@[id] == pid) <==> #[trigger] agreed_pid(
                    all_records(documents),
                    id,
                    pid,
                )),
            Err(reason) => r is Err && r->Err_0@ == reason,
        },
{
    match read_documents(output) {
        Ok(documents) => {
            let records = inspect_records(documents);
            Ok(init_pids(&records))
        },
        Err(reason) => Err(reason),
    }
}

} // verus!
